//! The checks on request bodies, and how their failures are reported.
use vstd::prelude::*;
use crate::text::join2;

verus! {

/// One failed check of a field: its code (e.g. "length") and its message, if it has one.
pub struct FieldError {
    pub code: String,
    pub message: Option<String>,
}

/// The failed checks of one field.
pub struct FieldErrors {
    pub field: String,
    pub errors: Vec<FieldError>,
}

/// The fields of a request body that failed their checks, in the order of the fields.
/// validator's own error type keys them in a `HashMap`, whose walk order each process
/// seeds anew; a vector in the order the checks ran makes the report a function of the
/// request alone.
pub struct ValidationErrors {
    pub fields: Vec<FieldErrors>,
}

impl View for FieldError {
    type V = (Seq<char>, Option<Seq<char>>);
    open spec fn view(&self) -> (Seq<char>, Option<Seq<char>>) {
        (self.code@, match self.message { Some(m) => Some(m@), None => None })
    }
}

impl View for FieldErrors {
    type V = (Seq<char>, Seq<(Seq<char>, Option<Seq<char>>)>);
    open spec fn view(&self) -> (Seq<char>, Seq<(Seq<char>, Option<Seq<char>>)>) {
        (self.field@, self.errors@.map_values(|e: FieldError| e@))
    }
}

impl View for ValidationErrors {
    type V = Seq<(Seq<char>, Seq<(Seq<char>, Option<Seq<char>>)>)>;
    open spec fn view(&self) -> Seq<(Seq<char>, Seq<(Seq<char>, Option<Seq<char>>)>)> {
        self.fields@.map_values(|f: FieldErrors| f@)
    }
}

pub open spec fn length_code() -> Seq<char> {
    seq!['l', 'e', 'n', 'g', 't', 'h']
}

pub open spec fn is_invalid_words() -> Seq<char> {
    seq![' ', 'i', 's', ' ', 'i', 'n', 'v', 'a', 'l', 'i', 'd']
}

/// `validator::validate_length` of a text with a least and a most length: whether its
/// number of chars lies between them, both included.
#[verifier::external_body]
fn length_within(s: &str, min: u64, max: u64) -> (r: bool)
    ensures
        r == (min <= s@.len() && s@.len() <= max),
{
    validator::validate_length(s, Some(min), Some(max), None)
}

/// The failure of a length check on `field`.
fn length_failure(field: &str) -> (r: FieldErrors)
    ensures
        r@ == (field@, seq![(length_code(), None::<Seq<char>>)]),
{
    let c = "length";
    proof {
        reveal_strlit("length");
        assert(c@ =~= length_code());
    }
    let mut errors: Vec<FieldError> = Vec::new();
    errors.push(FieldError { code: c.to_owned(), message: None });
    let r = FieldErrors { field: field.to_owned(), errors };
    assert(r@.1 =~= seq![(length_code(), None::<Seq<char>>)]);
    r
}

pub open spec fn length_ok(s: Seq<char>, min: nat, max: nat) -> bool {
    min <= s.len() && s.len() <= max
}

/// The body of a room request: the domain the room belongs to.
pub struct OpRoom {
    pub domain: String,
}

/// The body of a token request: the room, the user id, and the token to set.
pub struct CreateToken {
    pub room: String,
    pub id: String,
    pub token: Option<String>,
}

pub open spec fn length_failures(checks: Seq<(Seq<char>, bool)>) -> Seq<(Seq<char>, Seq<(Seq<char>, Option<Seq<char>>)>)>
    decreases checks.len(),
{
    if checks.len() == 0 {
        seq![]
    } else {
        let rest = length_failures(checks.drop_last());
        if checks.last().1 { rest } else { rest.push((checks.last().0, seq![(length_code(), None::<Seq<char>>)])) }
    }
}

impl OpRoom {
    /// The domain must have 1 to 50 chars.
    pub fn validate(&self) -> (r: Result<(), ValidationErrors>)
        ensures
            match r {
                Ok(()) => length_ok(self.domain@, 1, 50),
                Err(e) => !length_ok(self.domain@, 1, 50) && e@ == seq![("domain"@, seq![(length_code(), None::<Seq<char>>)])],
            },
    {
        if length_within(self.domain.as_str(), 1, 50) {
            Ok(())
        } else {
            let mut fields: Vec<FieldErrors> = Vec::new();
            fields.push(length_failure("domain"));
            let e = ValidationErrors { fields };
            assert(e@ =~= seq![("domain"@, seq![(length_code(), None::<Seq<char>>)])]);
            Err(e)
        }
    }
}

impl CreateToken {
    /// The room must have 1 to 100 chars and the id 1 to 50; the token is not checked.
    pub fn validate(&self) -> (r: Result<(), ValidationErrors>)
        ensures
            ({
                let checks = seq![("room"@, length_ok(self.room@, 1, 100)), ("id"@, length_ok(self.id@, 1, 50))];
                match r {
                    Ok(()) => length_ok(self.room@, 1, 100) && length_ok(self.id@, 1, 50),
                    Err(e) => !(length_ok(self.room@, 1, 100) && length_ok(self.id@, 1, 50)) && e@ == length_failures(checks),
                }
            }),
    {
        let ghost checks = seq![("room"@, length_ok(self.room@, 1, 100)), ("id"@, length_ok(self.id@, 1, 50))];
        let room_ok = length_within(self.room.as_str(), 1, 100);
        let id_ok = length_within(self.id.as_str(), 1, 50);
        if room_ok && id_ok {
            return Ok(());
        }
        let mut fields: Vec<FieldErrors> = Vec::new();
        proof {
            assert(checks.drop_last() =~= seq![("room"@, room_ok)]);
            assert(checks.drop_last().drop_last() =~= Seq::<(Seq<char>, bool)>::empty());
        }
        if !room_ok {
            fields.push(length_failure("room"));
        }
        let ghost mid = fields@.map_values(|f: FieldErrors| f@);
        proof { reveal_with_fuel(length_failures, 3); }
        assert(mid =~= length_failures(checks.drop_last()));
        if !id_ok {
            fields.push(length_failure("id"));
            assert(fields@.map_values(|f: FieldErrors| f@) =~= mid.push(("id"@, seq![(length_code(), None::<Seq<char>>)])));
        } else {
            assert(fields@.map_values(|f: FieldErrors| f@) =~= mid);
        }
        Err(ValidationErrors { fields })
    }
}

/// How one failed check reads: its message, or "<code> is invalid".
pub open spec fn error_text(e: (Seq<char>, Option<Seq<char>>)) -> Seq<char> {
    match e.1 {
        Some(m) => m,
        None => e.0 + is_invalid_words(),
    }
}

pub open spec fn errors_text(errs: Seq<(Seq<char>, Option<Seq<char>>)>) -> Seq<char>
    decreases errs.len(),
{
    if errs.len() == 0 {
        seq![]
    } else {
        errors_text(errs.drop_last()) + error_text(errs.last())
    }
}

/// Each field with the texts of its failed checks run together.
pub open spec fn formatted_errors(v: Seq<(Seq<char>, Seq<(Seq<char>, Option<Seq<char>>)>)>) -> Seq<(Seq<char>, Seq<char>)> {
    v.map_values(|f: (Seq<char>, Seq<(Seq<char>, Option<Seq<char>>)>)| (f.0, errors_text(f.1)))
}

fn field_text(f: &FieldErrors) -> (r: String)
    ensures
        r@ == errors_text(f@.1),
{
    let ghost ev = f.errors@.map_values(|e: FieldError| e@);
    let words = " is invalid";
    proof {
        reveal_strlit(" is invalid");
        assert(words@ =~= is_invalid_words());
    }
    let mut out = String::new();
    let mut i: usize = 0;
    while i < f.errors.len()
        invariant
            i <= f.errors.len(),
            ev == f.errors@.map_values(|e: FieldError| e@),
            words@ == is_invalid_words(),
            out@ == errors_text(ev.take(i as int)),
        decreases f.errors.len() - i,
    {
        assert(ev.take(i + 1).drop_last() =~= ev.take(i as int));
        assert(ev.take(i + 1).last() == f.errors@[i as int]@);
        let e = &f.errors[i];
        let piece = match &e.message {
            Some(m) => m.clone(),
            None => join2(e.code.as_str(), words),
        };
        out = join2(out.as_str(), piece.as_str());
        i = i + 1;
    }
    assert(ev.take(f.errors.len() as int) =~= ev);
    out
}

/// Each failing field with what its failures say, in the order of the fields (a map with
/// String keys, as a reply body wants it, is built from this list where the reply is made,
/// since vstd proves nothing of a `HashMap` keyed by `String`).
pub fn format_validator_errors(e: &ValidationErrors) -> (r: Vec<(String, String)>)
    ensures
        r@.map_values(|p: (String, String)| (p.0@, p.1@)) == formatted_errors(e@),
{
    let mut out: Vec<(String, String)> = Vec::new();
    let mut i: usize = 0;
    while i < e.fields.len()
        invariant
            i <= e.fields.len(),
            out@.map_values(|p: (String, String)| (p.0@, p.1@)) == formatted_errors(e@).take(i as int),
        decreases e.fields.len() - i,
    {
        let f = &e.fields[i];
        let text = field_text(f);
        assert(e@[i as int] == f@);
        let ghost before = out@.map_values(|p: (String, String)| (p.0@, p.1@));
        out.push((f.field.clone(), text));
        assert(out@.map_values(|p: (String, String)| (p.0@, p.1@)) =~= before.push((f@.0, errors_text(f@.1))));
        assert(formatted_errors(e@)[i as int] == (f@.0, errors_text(f@.1)));
        assert(formatted_errors(e@).take(i + 1) =~= formatted_errors(e@).take(i as int).push(formatted_errors(e@)[i as int]));
        i = i + 1;
    }
    assert(formatted_errors(e@).take(e.fields.len() as int) =~= formatted_errors(e@));
    out
}

}
