//! Which requests pass without a token, how a refused request is answered, and how a
//! failed request is reported.
use vstd::prelude::*;
use crate::text::{find_char, join2, same_text, slice_chars};

verus! {

/// The text `s` with every character in upper case, as Unicode defines it.
pub uninterp spec fn unicode_upper(s: Seq<char>) -> Seq<char>;

/// Whether the regular expression `pattern` finds a match in `text`; `None` when the
/// pattern does not compile.
pub uninterp spec fn regex_outcome(pattern: Seq<char>, text: Seq<char>) -> Option<bool>;

/// `str::to_uppercase`: the named upper-case form of the text.
#[verifier::external_body]
fn to_upper(s: &str) -> (r: String)
    ensures
        r@ == unicode_upper(s@),
{
    s.to_uppercase()
}

/// `regex::Regex::new(pattern)` and then `is_match(text)`: the named outcome.
#[verifier::external_body]
fn regex_is_match(pattern: &str, text: &str) -> (r: Option<bool>)
    ensures
        r == regex_outcome(pattern@, text@),
{
    match regex::Regex::new(pattern) {
        Ok(re) => Some(re.is_match(text)),
        Err(_) => None,
    }
}

/// `s[i..j]` is one of the pieces into which `sep` cuts `s`.
pub open spec fn is_piece(s: Seq<char>, sep: char, i: int, j: int) -> bool {
    &&& 0 <= i <= j <= s.len()
    &&& (i == 0 || s[i - 1] == sep)
    &&& (j == s.len() || s[j] == sep)
    &&& forall|k: int| i <= k < j ==> s[k] != sep
}

/// `method` is one of the '|'-separated methods of `methods`, once that one is upper-cased.
pub open spec fn method_allowed(method: Seq<char>, methods: Seq<char>) -> bool {
    exists|i: int, j: int| is_piece(methods, '|', i, j) && method == #[trigger] unicode_upper(methods.subrange(i, j))
}

/// A piece starting at `i` ends at the first `sep` from `i` on.
proof fn lemma_piece_end(s: Seq<char>, sep: char, i: int, j: int, e: int)
    requires
        is_piece(s, sep, i, j),
        i <= e <= s.len(),
        e == s.len() || s[e] == sep,
        forall|k: int| i <= k < e ==> s[k] != sep,
    ensures
        j == e,
{
}

/// Whether `method` is one of the methods listed in `methods` ("get|post|...").
pub fn is_method_allowed(method: &str, methods: &str) -> (r: bool)
    ensures
        r == method_allowed(method@, methods@),
{
    let len = methods.unicode_len();
    let mut start: usize = 0;
    loop
        invariant
            len == methods@.len(),
            start <= len,
            start == 0 || methods@[start - 1] == '|',
            forall|i: int, j: int| is_piece(methods@, '|', i, j) && i < start ==> method@ != #[trigger] unicode_upper(methods@.subrange(i, j)),
        decreases len - start,
    {
        let rest = slice_chars(methods, start, len);
        let n = find_char(rest.as_str(), '|');
        let end = start + n;
        proof {
            assert forall|k: int| start <= k < end implies methods@[k] != '|' by {
                assert(methods@[k] == rest@[k - start]);
            }
            if end < len {
                assert(methods@[end as int] == rest@[n as int]);
            }
            assert(is_piece(methods@, '|', start as int, end as int));
        }
        let piece = slice_chars(methods, start, end);
        let up = to_upper(piece.as_str());
        if same_text(method, up.as_str()) {
            return true;
        }
        proof {
            assert forall|i: int, j: int| is_piece(methods@, '|', i, j) && i < end + 1 implies method@ != #[trigger] unicode_upper(methods@.subrange(i, j)) by {
                if i == start {
                    lemma_piece_end(methods@, '|', i, j, end as int);
                } else if i > start {
                    assert(methods@[i - 1] == '|');
                }
            }
        }
        if end == len {
            proof {
                assert forall|i: int, j: int| is_piece(methods@, '|', i, j) implies method@ != #[trigger] unicode_upper(methods@.subrange(i, j)) by {
                    if i > start {
                        assert(methods@[i - 1] == '|');
                    } else if i == start {
                        lemma_piece_end(methods@, '|', i, j, end as int);
                    }
                }
            }
            return false;
        }
        start = end + 1;
    }
}

/// The rules are tried in order: the first whose pattern matches the path decides, by
/// its methods; with none matching, the request is not let through.
pub open spec fn rules_decision(rules: Seq<(Seq<char>, Seq<char>)>, uri: Seq<char>, method: Seq<char>) -> bool
    decreases rules.len(),
{
    if rules.len() == 0 {
        false
    } else if regex_outcome(rules[0].0, uri) == Some(true) {
        method_allowed(method, rules[0].1)
    } else {
        rules_decision(rules.drop_first(), uri, method)
    }
}

/// Every pattern tried before the deciding rule compiles.
pub open spec fn rules_compile(rules: Seq<(Seq<char>, Seq<char>)>, uri: Seq<char>) -> bool
    decreases rules.len(),
{
    if rules.len() == 0 {
        true
    } else {
        match regex_outcome(rules[0].0, uri) {
            None => false,
            Some(true) => true,
            Some(false) => rules_compile(rules.drop_first(), uri),
        }
    }
}

pub open spec fn rules_view(rules: Seq<(String, String)>) -> Seq<(Seq<char>, Seq<char>)> {
    rules.map_values(|r: (String, String)| (r.0@, r.1@))
}

/// Whether a request for `uri` with `method` is let through by `rules`, each a pattern
/// for the path and the methods it lets through. The rules are an ordered sequence: the
/// first match decides, and a `HashMap`'s walk order, which its hasher seeds anew in each
/// process, would leave that decision unfixed where two patterns match one path.
pub fn match_rules(rules: &Vec<(String, String)>, uri: &str, method: &str) -> (r: bool)
    requires
        rules_compile(rules_view(rules@), uri@),
    ensures
        r == rules_decision(rules_view(rules@), uri@, method@),
{
    let ghost rv = rules_view(rules@);
    assert(rv.skip(0) =~= rv);
    let mut i: usize = 0;
    while i < rules.len()
        invariant
            i <= rules.len(),
            rv == rules_view(rules@),
            rules_compile(rv.skip(i as int), uri@),
            rules_decision(rv, uri@, method@) == rules_decision(rv.skip(i as int), uri@, method@),
        decreases rules.len() - i,
    {
        let ghost t = rv.skip(i as int);
        assert(t[0] == (rules@[i as int].0@, rules@[i as int].1@));
        assert(t.drop_first() =~= rv.skip(i + 1));
        match regex_is_match(rules[i].0.as_str(), uri) {
            Some(true) => {
                return is_method_allowed(method, rules[i].1.as_str());
            },
            Some(false) => {},
            None => {
                assert(false);
            },
        }
        i = i + 1;
    }
    false
}

/// `match_rules`, or `None` when a pattern tried before the deciding rule does not compile.
pub fn try_match_rules(rules: &Vec<(String, String)>, uri: &str, method: &str) -> (r: Option<bool>)
    ensures
        r == (if rules_compile(rules_view(rules@), uri@) { Some(rules_decision(rules_view(rules@), uri@, method@)) } else { None }),
{
    let ghost rv = rules_view(rules@);
    assert(rv.skip(0) =~= rv);
    let mut i: usize = 0;
    while i < rules.len()
        invariant
            i <= rules.len(),
            rv == rules_view(rules@),
            rules_compile(rv, uri@) == rules_compile(rv.skip(i as int), uri@),
        decreases rules.len() - i,
    {
        let ghost t = rv.skip(i as int);
        assert(t[0] == (rules@[i as int].0@, rules@[i as int].1@));
        assert(t.drop_first() =~= rv.skip(i + 1));
        match regex_is_match(rules[i].0.as_str(), uri) {
            Some(true) => {
                return Some(match_rules(rules, uri, method));
            },
            Some(false) => {},
            None => {
                return None;
            },
        }
        i = i + 1;
    }
    assert(rv.skip(i as int) =~= Seq::<(Seq<char>, Seq<char>)>::empty());
    Some(match_rules(rules, uri, method))
}

pub open spec fn open_rules() -> Seq<(Seq<char>, Seq<char>)> {
    seq![(seq!['^', '/'], seq!['g', 'e', 't', '|', 'p', 'o', 's', 't', '|', 'p', 'u', 't', '|', 'd', 'e', 'l', 'e', 't', 'e'])]
}

/// Whether a request passes without a token: every path under "/" is open to get, post,
/// put and delete. `None` when the rule's pattern does not compile.
pub fn skips_auth(uri: &str, method: &str) -> (r: Option<bool>)
    ensures
        r == (if rules_compile(open_rules(), uri@) { Some(rules_decision(open_rules(), uri@, method@)) } else { None }),
{
    let p = "^/";
    let m = "get|post|put|delete";
    proof {
        reveal_strlit("^/");
        reveal_strlit("get|post|put|delete");
        assert(p@ =~= open_rules()[0].0);
        assert(m@ =~= open_rules()[0].1);
    }
    let mut rules: Vec<(String, String)> = Vec::new();
    rules.push((p.to_owned(), m.to_owned()));
    assert(rules@[0].0@ == open_rules()[0].0);
    assert(rules_view(rules@) =~= open_rules());
    try_match_rules(&rules, uri, method)
}

/// The rules decide by the first rule whose pattern matches: a matching first rule decides
/// by its methods whatever follows it, a first rule that does not match is passed over,
/// and with no rules left nothing is let through.
pub proof fn lemma_first_match_decides(
    rule: (Seq<char>, Seq<char>),
    rest: Seq<(Seq<char>, Seq<char>)>,
    uri: Seq<char>,
    method: Seq<char>,
)
    ensures
        regex_outcome(rule.0, uri) == Some(true) ==> rules_decision(seq![rule] + rest, uri, method)
            == method_allowed(method, rule.1),
        regex_outcome(rule.0, uri) == Some(false) ==> rules_decision(seq![rule] + rest, uri, method)
            == rules_decision(rest, uri, method),
        !rules_decision(Seq::<(Seq<char>, Seq<char>)>::empty(), uri, method),
{
    assert((seq![rule] + rest)[0] == rule);
    assert((seq![rule] + rest).drop_first() =~= rest);
}

/// A method list "<first>|<rest>", where `first` holds no '|', lets a method through
/// exactly when it is `first` upper-cased or the rest lets it through; a list without '|'
/// lets through only itself upper-cased.
pub proof fn lemma_methods_listed(method: Seq<char>, first: Seq<char>, rest: Seq<char>)
    requires
        forall|k: int| 0 <= k < first.len() ==> first[k] != '|',
    ensures
        method_allowed(method, first) == (method == unicode_upper(first)),
        method_allowed(method, first + seq!['|'] + rest)
            == (method == unicode_upper(first) || method_allowed(method, rest)),
{
    let l = first.len() as int;
    let s = first + seq!['|'] + rest;
    assert(is_piece(first, '|', 0, l));
    assert(first.subrange(0, l) =~= first);
    if method_allowed(method, first) {
        let (i, j) = choose|i: int, j: int| is_piece(first, '|', i, j) && method == #[trigger] unicode_upper(first.subrange(i, j));
        lemma_piece_end(first, '|', i, j, l);
        assert(i == 0);
    }
    assert(is_piece(s, '|', 0, l));
    assert(s.subrange(0, l) =~= first);
    if method_allowed(method, rest) {
        let (i, j) = choose|i: int, j: int| is_piece(rest, '|', i, j) && method == #[trigger] unicode_upper(rest.subrange(i, j));
        assert(is_piece(s, '|', i + l + 1, j + l + 1)) by {
            assert forall|k: int| i + l + 1 <= k < j + l + 1 implies s[k] != '|' by {
                assert(s[k] == rest[k - l - 1]);
            }
            if i > 0 {
                assert(s[i + l] == rest[i - 1]);
            } else {
                assert(s[l] == '|');
            }
            if j < rest.len() {
                assert(s[j + l + 1] == rest[j]);
            }
        }
        assert(s.subrange(i + l + 1, j + l + 1) =~= rest.subrange(i, j));
    }
    if method_allowed(method, s) && method != unicode_upper(first) {
        let (i, j) = choose|i: int, j: int| is_piece(s, '|', i, j) && method == #[trigger] unicode_upper(s.subrange(i, j));
        if i <= l {
            if i > 0 {
                assert(s[i - 1] == first[i - 1]);
            }
            lemma_piece_end(s, '|', i, j, l);
            assert(i == 0);
        } else {
            let i2 = i - l - 1;
            let j2 = j - l - 1;
            assert(is_piece(rest, '|', i2, j2)) by {
                assert forall|k: int| i2 <= k < j2 implies rest[k] != '|' by {
                    assert(s[k + l + 1] == rest[k]);
                }
                if i2 > 0 {
                    assert(s[i - 1] == rest[i2 - 1]);
                }
                if j2 < rest.len() {
                    assert(s[j] == rest[j2]);
                }
            }
            assert(s.subrange(i, j) =~= rest.subrange(i2, j2));
            assert(method == unicode_upper(rest.subrange(i2, j2)));
        }
    }
}

/// Why a request that needs a token is refused.
#[derive(Clone, Copy, Debug, PartialEq, Eq, Structural)]
pub enum AuthError {
    InvalidHeader,
    InvalidToken,
}

impl AuthError {
    /// Both refusals are answered with 403 Forbidden.
    pub fn status_code(&self) -> (r: u16)
        ensures
            r == 403,
    {
        403
    }

    /// The error text of the refusal.
    pub fn message(&self) -> (r: String)
        ensures
            r@ == match self {
                AuthError::InvalidHeader => "请求头 Authorization 不合法"@,
                AuthError::InvalidToken => "请求头 Authorization 解析错误"@,
            },
    {
        match self {
            AuthError::InvalidHeader => "请求头 Authorization 不合法".to_owned(),
            AuthError::InvalidToken => "请求头 Authorization 解析错误".to_owned(),
        }
    }
}

/// How a failed request is answered: 408 with "<method> <uri> timeout" when it timed out,
/// else 500 with "`<method> <uri>` failed with <detail>".
pub fn error_reply(method: &str, uri: &str, timed_out: bool, detail: &str) -> (r: (u16, String))
    ensures
        timed_out ==> r.0 == 408 && r.1@ == method@ + seq![' '] + uri@ + " timeout"@,
        !timed_out ==> r.0 == 500 && r.1@ == seq!['`'] + method@ + seq![' '] + uri@ + "` failed with "@ + detail@,
{
    let sp = " ";
    proof { reveal_strlit(" "); }
    if timed_out {
        let t = join2(method, sp);
        let t = join2(t.as_str(), uri);
        let t = join2(t.as_str(), " timeout");
        (408, t)
    } else {
        let q = "`";
        proof { reveal_strlit("`"); }
        let t = join2(q, method);
        let t = join2(t.as_str(), sp);
        let t = join2(t.as_str(), uri);
        let t = join2(t.as_str(), "` failed with ");
        let t = join2(t.as_str(), detail);
        (500, t)
    }
}

}
