//! Code patterns that a rule describes, parsed into item lists.
use crate::item::Item;
use crate::parse::{comment_items, non_comments, ParseError, Parser};
use crate::rules::{is_white, white};
use crate::text::{chars_of, push_chars};
use crate::token::{spec_tokenize, tokenize};
use vstd::prelude::*;
use vstd::string::StringExecFns;

verus! {

/// A pattern of code that a rule reports: its text, its items and its
/// comments.
#[derive(Debug)]
pub struct NgPattern {
    pub text: String,
    pub items: Vec<Item>,
    pub comments: Vec<Item>,
}

/// A rule description: its title, its full markdown text, and the code
/// pattern it reports.
#[derive(Debug)]
pub struct Rule {
    pub title: String,
    pub full_text: String,
    pub ng_pattern: NgPattern,
}

/// The first index at or after `k` of a character of `s` that is not
/// whitespace, or the length.
pub open spec fn skip_white(s: Seq<char>, k: int) -> int
    decreases s.len() - k,
{
    if k < 0 || k >= s.len() {
        s.len() as int
    } else if is_white(s[k]) {
        skip_white(s, k + 1)
    } else {
        k
    }
}

/// The end of `s[lo..e]` without its trailing whitespace.
pub open spec fn back_white(s: Seq<char>, e: int, lo: int) -> int
    decreases e - lo,
{
    if e <= lo || e > s.len() {
        lo
    } else if is_white(s[e - 1]) {
        back_white(s, e - 1, lo)
    } else {
        e
    }
}

/// `s` without leading and trailing whitespace, as `str::trim` gives it.
pub open spec fn trim(s: Seq<char>) -> Seq<char> {
    let a = skip_white(s, 0);
    s.subrange(a, back_white(s, s.len() as int, a))
}

/// The first index at or after `k` of `c` in `s`, or the length.
pub open spec fn find_char(s: Seq<char>, c: char, k: int) -> int
    decreases s.len() - k,
{
    if k < 0 || k >= s.len() {
        s.len() as int
    } else if s[k] == c {
        k
    } else {
        find_char(s, c, k + 1)
    }
}

/// The first index at or after `k` where `pat` occurs in `s`, or -1.
pub open spec fn find_sub(s: Seq<char>, pat: Seq<char>, k: int) -> int
    decreases s.len() + 1 - k,
{
    if k < 0 || k + pat.len() > s.len() {
        -1
    } else if s.subrange(k, k + pat.len()) == pat {
        k
    } else {
        find_sub(s, pat, k + 1)
    }
}

/// A match that [`find_sub`] finds lies inside `s`.
pub proof fn lemma_find_sub(s: Seq<char>, pat: Seq<char>, k: int)
    ensures
        find_sub(s, pat, k) >= 0 ==> k <= find_sub(s, pat, k) && find_sub(s, pat, k) + pat.len() <= s.len(),
    decreases s.len() + 1 - k,
{
    if !(k < 0 || k + pat.len() > s.len()) && s.subrange(k, k + pat.len()) != pat {
        lemma_find_sub(s, pat, k + 1);
    }
}

/// The title and the first `erlang` code block of a rule text: after the
/// `# RULE:` prefix and trimming, the title is the trimmed first line, and
/// the code is what follows the first line that opens an `erlang` block up
/// to the first line that closes a block.
pub open spec fn rule_parts(text: Seq<char>) -> Option<(Seq<char>, Seq<char>)> {
    if !(text.len() >= 7 && text.subrange(0, 7) == "# RULE:"@) {
        None
    } else {
        let t = trim(text.subrange(7, text.len() as int));
        let nl = find_char(t, '\n', 0);
        if nl >= t.len() {
            None
        } else {
            let rest = t.subrange(nl + 1, t.len() as int);
            let a = find_sub(rest, "\n```erlang\n"@, 0);
            if a < 0 {
                None
            } else {
                let rest2 = rest.subrange(a + 11, rest.len() as int);
                let b = find_sub(rest2, "\n```\n"@, 0);
                if b < 0 {
                    None
                } else {
                    Some((trim(t.subrange(0, nl)), rest2.subrange(0, b)))
                }
            }
        }
    }
}

/// The characters `v[a..b]`.
fn slice_chars(v: &Vec<char>, a: usize, b: usize) -> (r: Vec<char>)
    requires
        a <= b <= v@.len(),
    ensures
        r@ == v@.subrange(a as int, b as int),
{
    let mut r: Vec<char> = Vec::new();
    let mut i = a;
    while i < b
        invariant
            a <= i <= b <= v@.len(),
            r@ == v@.subrange(a as int, i as int),
        decreases b - i,
    {
        r.push(v[i]);
        i += 1;
        assert(r@ =~= v@.subrange(a as int, i as int));
    }
    r
}

/// `v` trimmed; see [`trim`].
fn trim_chars(v: &Vec<char>) -> (r: Vec<char>)
    ensures
        r@ == trim(v@),
{
    let mut a: usize = 0;
    while a < v.len() && white(v[a])
        invariant
            a <= v@.len(),
            skip_white(v@, 0) == skip_white(v@, a as int),
        decreases v@.len() - a,
    {
        a += 1;
    }
    let mut b: usize = v.len();
    while b > a && white(v[b - 1])
        invariant
            a <= b <= v@.len(),
            skip_white(v@, 0) == a,
            back_white(v@, v@.len() as int, a as int) == back_white(v@, b as int, a as int),
        decreases b,
    {
        b -= 1;
    }
    slice_chars(v, a, b)
}

/// The first index of `c` in `v`, or the length; see [`find_char`].
fn find_char_in(v: &Vec<char>, c: char) -> (k: usize)
    ensures
        k == find_char(v@, c, 0),
{
    let mut k: usize = 0;
    while k < v.len() && v[k] != c
        invariant
            k <= v@.len(),
            find_char(v@, c, 0) == find_char(v@, c, k as int),
        decreases v@.len() - k,
    {
        k += 1;
    }
    k
}

/// The first index where `pat` occurs in `v`; see [`find_sub`].
fn find_sub_in(v: &Vec<char>, pat: &Vec<char>) -> (r: Option<usize>)
    ensures
        r is Some <==> find_sub(v@, pat@, 0) >= 0,
        r matches Some(k) ==> k == find_sub(v@, pat@, 0),
{
    let m = pat.len();
    let mut k: usize = 0;
    while k <= v.len() && m <= v.len() - k
        invariant
            find_sub(v@, pat@, 0) == find_sub(v@, pat@, k as int),
            m == pat@.len(),
        decreases v@.len() - k,
    {
        let mut j: usize = 0;
        while j < m && v[k + j] == pat[j]
            invariant
                j <= m,
                m == pat@.len(),
                k + m <= v@.len() <= usize::MAX,
                forall|i: int| 0 <= i < j ==> v@[k + i] == pat@[i],
            decreases m - j,
        {
            j += 1;
        }
        if j == m {
            assert(v@.subrange(k as int, k + m) =~= pat@);
            return Some(k);
        }
        assert(v@.subrange(k as int, k + m)[j as int] != pat@[j as int]);
        k += 1;
    }
    None
}

/// The characters of `v` as a string.
fn string_of(v: &Vec<char>) -> (s: String)
    ensures
        s@ == v@,
{
    let mut s = String::new();
    push_chars(&mut s, v, 0, v.len());
    assert(v@.subrange(0, v@.len() as int) =~= v@);
    s
}

/// The title and code of a rule text as strings; see [`rule_parts`].
fn split_rule(text: &str) -> (r: Option<(String, String)>)
    ensures
        r is Some <==> rule_parts(text@) is Some,
        r matches Some(p) ==> p.0@ == rule_parts(text@)->Some_0.0 && p.1@ == rule_parts(text@)->Some_0.1,
{
    let v = chars_of(text);
    let prefix = chars_of("# RULE:");
    proof {
        reveal_strlit("# RULE:");
        reveal_strlit("\n```erlang\n");
        reveal_strlit("\n```\n");
    }
    if v.len() < 7 {
        return None;
    }
    let head = slice_chars(&v, 0, 7);
    let mut j: usize = 0;
    while j < 7
        invariant
            j <= 7,
            head@.len() == 7,
            prefix@.len() == 7,
            head@ == text@.subrange(0, 7),
            prefix@ == "# RULE:"@,
            forall|i: int| 0 <= i < j ==> head@[i] == prefix@[i],
        decreases 7 - j,
    {
        if head[j] != prefix[j] {
            assert(head@[j as int] != prefix@[j as int]);
            assert(text@.subrange(0, 7) != "# RULE:"@);
            return None;
        }
        j += 1;
    }
    assert(head@ =~= prefix@);
    let after = slice_chars(&v, 7, v.len());
    let t = trim_chars(&after);
    let nl = find_char_in(&t, '\n');
    if nl >= t.len() {
        return None;
    }
    let rest = slice_chars(&t, nl + 1, t.len());
    let open = chars_of("\n```erlang\n");
    let a = match find_sub_in(&rest, &open) {
        Some(a) => a,
        None => return None,
    };
    proof {
        lemma_find_sub(rest@, open@, 0);
    }
    let rest2 = slice_chars(&rest, a + 11, rest.len());
    let close = chars_of("\n```\n");
    let b = match find_sub_in(&rest2, &close) {
        Some(b) => b,
        None => return None,
    };
    proof {
        lemma_find_sub(rest2@, close@, 0);
    }
    let title_line = slice_chars(&t, 0, nl);
    let title = trim_chars(&title_line);
    let code = slice_chars(&rest2, 0, b);
    Some((string_of(&title), string_of(&code)))
}

impl Rule {
    /// Parses a rule text whose form [`rule_parts`] reads and whose code
    /// scans.
    pub fn parse(text: &str) -> (r: Result<Rule, ParseError>)
        requires
            rule_parts(text@) is Some,
            spec_tokenize(rule_parts(text@)->Some_0.1) is Ok,
        ensures
            r is Ok <==> crate::grammar::g_expr(
                non_comments(spec_tokenize(rule_parts(text@)->Some_0.1)->Ok_0),
                rule_parts(text@)->Some_0.1,
                0,
            ) is Some,
            r matches Ok(rule) ==> rule.title@ == rule_parts(text@)->Some_0.0
                && rule.full_text@ == text@
                && rule.ng_pattern.text@ == rule_parts(text@)->Some_0.1
                && rule.ng_pattern.comments@ == comment_items(spec_tokenize(rule_parts(text@)->Some_0.1)->Ok_0)
                && rule.ng_pattern.items@ == crate::grammar::p_expr(
                    non_comments(spec_tokenize(rule_parts(text@)->Some_0.1)->Ok_0),
                    rule_parts(text@)->Some_0.1,
                    0,
                ),
    {
        let (title, code) = match split_rule(text) {
            Some(p) => p,
            None => {
                assert(false);
                return Err(ParseError::new(crate::item::Span::new(0, 0), String::new()));
            },
        };
        let ng_pattern = NgPattern::parse(code.as_str())?;
        Ok(Rule { title, full_text: String::from_str(text), ng_pattern })
    }

    /// Reads the form and scans the code first: `None` where
    /// [`Rule::parse`] cannot take `text`, else what it gives.
    pub fn parse_checked(text: &str) -> (r: Option<Result<Rule, ParseError>>)
        ensures
            r is Some <==> rule_parts(text@) is Some && spec_tokenize(rule_parts(text@)->Some_0.1) is Ok,
            r matches Some(res) ==> (res is Ok <==> crate::grammar::g_expr(
                non_comments(spec_tokenize(rule_parts(text@)->Some_0.1)->Ok_0),
                rule_parts(text@)->Some_0.1,
                0,
            ) is Some),
            r matches Some(Ok(rule)) ==> rule.title@ == rule_parts(text@)->Some_0.0 && rule.full_text@ == text@,
    {
        let (_, code) = match split_rule(text) {
            Some(p) => p,
            None => return None,
        };
        match tokenize(code.as_str()) {
            Ok(_) => Some(Rule::parse(text)),
            Err(_) => None,
        }
    }
}

impl NgPattern {
    /// Parses `text`, which must scan, as one expression.
    pub fn parse(text: &str) -> (r: Result<NgPattern, ParseError>)
        requires
            spec_tokenize(text@) is Ok,
        ensures
            r is Ok <==> crate::grammar::g_expr(non_comments(spec_tokenize(text@)->Ok_0), text@, 0) is Some,
            r matches Ok(p) ==> p.text@ == text@
                && p.comments@ == comment_items(spec_tokenize(text@)->Ok_0)
                && p.items@ == crate::grammar::p_expr(non_comments(spec_tokenize(text@)->Ok_0), text@, 0)
                && p.items@.len() >= 1
                && p.items@[0].span.start == non_comments(spec_tokenize(text@)->Ok_0)[0].span.start,
    {
        let tokens = match tokenize(text) {
            Ok(t) => t,
            Err(_) => {
                assert(false);
                return Err(ParseError::new(crate::item::Span::new(0, 0), String::from_str("")));
            },
        };
        proof {
            assert(crate::parse::tokens_fit(tokens@, text)) by {
                assert forall|k: int| 0 <= k < tokens@.len() implies (#[trigger] tokens@[k]).span.fits(text) by {
                }
            }
        }
        let mut parser = Parser::new(text, tokens);
        parser.parse_expr()?;
        Ok(NgPattern { text: String::from_str(text), items: parser.items, comments: parser.comments })
    }

    /// Scans `text` first: `None` where it does not scan, else what
    /// [`NgPattern::parse`] gives.
    pub fn parse_scanned(text: &str) -> (r: Option<Result<NgPattern, ParseError>>)
        ensures
            r is Some <==> spec_tokenize(text@) is Ok,
            r matches Some(res) ==> (res is Ok <==> crate::grammar::g_expr(non_comments(spec_tokenize(text@)->Ok_0), text@, 0) is Some),
            r matches Some(Ok(p)) ==> p.text@ == text@ && p.comments@ == comment_items(spec_tokenize(text@)->Ok_0)
                && p.items@ == crate::grammar::p_expr(non_comments(spec_tokenize(text@)->Ok_0), text@, 0),
    {
        match tokenize(text) {
            Ok(_) => Some(NgPattern::parse(text)),
            Err(_) => None,
        }
    }
}

} // verus!
