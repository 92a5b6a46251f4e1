//! The token reader: splits one embedded command string into shell-like
//! words, honouring double quotes (whose backslash escapes survive for the
//! later unescaping pass), single quotes, and backslash-escaped characters;
//! and the unescaping pass itself, shared with the word-level parsers.

use vstd::prelude::*;

use crate::chars::{chars_vec, string_of, subvec};

verus! {

/// The separators between words.
pub open spec fn is_space(c: char) -> bool {
    c == ' ' || c == '\t' || c == '\r' || c == '\n'
}

fn is_space_exec(c: char) -> (r: bool)
    ensures
        r == is_space(c),
{
    c == ' ' || c == '\t' || c == '\r' || c == '\n'
}

/// What one escaped character stands for; `None` keeps the pair verbatim.
pub open spec fn escape_map(c: char) -> Option<char> {
    if c == '\\' {
        Some('\\')
    } else if c == '0' {
        Some('\u{0}')
    } else if c == ' ' {
        Some(' ')
    } else if c == '"' {
        Some('"')
    } else if c == '\'' {
        Some('\'')
    } else if c == 'r' {
        Some('\r')
    } else if c == 'n' {
        Some('\n')
    } else if c == 't' {
        Some('\t')
    } else {
        None
    }
}

fn escape_map_exec(c: char) -> (r: Option<char>)
    ensures
        r == escape_map(c),
{
    if c == '\\' {
        Some('\\')
    } else if c == '0' {
        Some('\u{0}')
    } else if c == ' ' {
        Some(' ')
    } else if c == '"' {
        Some('"')
    } else if c == '\'' {
        Some('\'')
    } else if c == 'r' {
        Some('\r')
    } else if c == 'n' {
        Some('\n')
    } else if c == 't' {
        Some('\t')
    } else {
        None
    }
}

/// The backslash escapes of a text resolved: a known pair becomes its
/// character, an unknown pair stays verbatim, and a trailing backslash is
/// kept.
pub open spec fn escape_spec(s: Seq<char>) -> Seq<char>
    decreases s.len(),
{
    if s.len() == 0 {
        Seq::empty()
    } else if s[0] == '\\' {
        if s.len() == 1 {
            seq!['\\']
        } else {
            match escape_map(s[1]) {
                Some(r) => seq![r] + escape_spec(s.skip(2)),
                None => seq!['\\', s[1]] + escape_spec(s.skip(2)),
            }
        }
    } else {
        seq![s[0]] + escape_spec(s.skip(1))
    }
}

/// Resolves the backslash escapes of a text.
pub fn escape_string(s: &str) -> (r: String)
    ensures
        r@ == escape_spec(s@),
{
    let v = chars_vec(s);
    let n = v.len();
    let mut out: Vec<char> = Vec::new();
    let mut i: usize = 0;
    let ghost target = escape_spec(v@);
    proof {
        assert(v@.skip(0) =~= v@);
    }
    while i < n
        invariant
            i <= n,
            n == v@.len(),
            v@ == s@,
            target == escape_spec(v@),
            target == out@ + escape_spec(v@.skip(i as int)),
        decreases n - i,
    {
        let ghost rest = v@.skip(i as int);
        proof {
            assert(rest[0] == v@[i as int]);
            if rest.len() > 1 {
                assert(rest[1] == v@[i + 1]);
            }
            assert(rest.skip(1) =~= v@.skip(i + 1));
            if rest.len() >= 2 {
                assert(rest.skip(2) =~= v@.skip(i + 2));
            }
        }
        let c = v[i];
        if c == '\\' {
            if i + 1 == n {
                out.push('\\');
                i += 1;
                proof {
                    assert(out@ + escape_spec(v@.skip(i as int)) =~= target);
                }
            } else {
                let d = v[i + 1];
                match escape_map_exec(d) {
                    Some(r) => {
                        out.push(r);
                        proof {
                            assert(out@ + escape_spec(v@.skip(i + 2)) =~= target);
                        }
                    },
                    None => {
                        out.push('\\');
                        out.push(d);
                        proof {
                            assert(out@ + escape_spec(v@.skip(i + 2)) =~= target);
                        }
                    },
                }
                i += 2;
            }
        } else {
            out.push(c);
            i += 1;
            proof {
                assert(out@ + escape_spec(v@.skip(i as int)) =~= target);
            }
        }
    }
    proof {
        assert(escape_spec(v@.skip(n as int)) =~= Seq::<char>::empty());
        assert(out@ =~= target);
    }
    string_of(&out)
}

/// The characters a command name may use after its leading colon.
pub open spec fn cmd_char(c: char) -> bool {
    ('a' <= c && c <= 'z') || ('A' <= c && c <= 'Z') || ('0' <= c && c <= '9') || c == '-' || c
        == '_' || c == '.'
}

fn cmd_char_exec(c: char) -> (r: bool)
    ensures
        r == cmd_char(c),
{
    ('a' <= c && c <= 'z') || ('A' <= c && c <= 'Z') || ('0' <= c && c <= '9') || c == '-' || c
        == '_' || c == '.'
}

/// A whole word of command shape: a colon followed by one or more name
/// characters.
pub open spec fn is_cmd_token(s: Seq<char>) -> bool {
    s.len() >= 2 && s[0] == ':' && forall|i: int| 1 <= i < s.len() ==> cmd_char(#[trigger] s[i])
}

/// Decides whether a word is a command token.
pub fn whole_cmd_token(s: &str) -> (r: bool)
    ensures
        r == is_cmd_token(s@),
{
    let v = chars_vec(s);
    let n = v.len();
    if n < 2 {
        return false;
    }
    if v[0] != ':' {
        return false;
    }
    let mut i: usize = 1;
    while i < n
        invariant
            1 <= i <= n,
            n == v@.len(),
            v@ == s@,
            forall|j: int| 1 <= j < i ==> cmd_char(#[trigger] v@[j]),
        decreases n - i,
    {
        if !cmd_char_exec(v[i]) {
            return false;
        }
        i += 1;
    }
    true
}

// ------------------------------------------------------------------
// Splitting one embedded token string into words.
// ------------------------------------------------------------------
/// The index just past the closing double quote's partner: scanning from
/// `i`, a backslash skips the next character.
pub open spec fn dquote_end(s: Seq<char>, i: int) -> Option<int>
    decreases s.len() - i,
{
    if i < 0 || i >= s.len() {
        None
    } else if s[i] == '"' {
        Some(i)
    } else if s[i] == '\\' && i + 1 < s.len() {
        dquote_end(s, i + 2)
    } else if s[i] == '\\' {
        None
    } else {
        dquote_end(s, i + 1)
    }
}

/// The index of the closing single quote, scanning from `i`.
pub open spec fn squote_end(s: Seq<char>, i: int) -> Option<int>
    decreases s.len() - i,
{
    if i < 0 || i >= s.len() {
        None
    } else if s[i] == '\'' {
        Some(i)
    } else {
        squote_end(s, i + 1)
    }
}

/// The index where an unquoted run ends: at white space or a quote, with
/// backslash pairs skipped and a trailing backslash consumed.
pub open spec fn normal_end(s: Seq<char>, i: int) -> int
    decreases s.len() - i,
{
    if i < 0 || i >= s.len() {
        i
    } else if s[i] == '\\' {
        if i + 1 < s.len() {
            normal_end(s, i + 2)
        } else {
            s.len() as int
        }
    } else if is_space(s[i]) || s[i] == '"' || s[i] == '\'' {
        i
    } else {
        normal_end(s, i + 1)
    }
}

pub proof fn lemma_dquote_end_bounds(s: Seq<char>, i: int)
    requires
        0 <= i,
    ensures
        dquote_end(s, i) matches Some(e) ==> i <= e < s.len() && s[e] == '"',
    decreases s.len() - i,
{
    if i < s.len() && s[i] != '"' {
        if s[i] == '\\' && i + 1 < s.len() {
            lemma_dquote_end_bounds(s, i + 2);
        } else if s[i] != '\\' {
            lemma_dquote_end_bounds(s, i + 1);
        }
    }
}

pub proof fn lemma_squote_end_bounds(s: Seq<char>, i: int)
    requires
        0 <= i,
    ensures
        squote_end(s, i) matches Some(e) ==> i <= e < s.len() && s[e] == '\'',
    decreases s.len() - i,
{
    if i < s.len() && s[i] != '\'' {
        lemma_squote_end_bounds(s, i + 1);
    }
}

pub proof fn lemma_normal_end_bounds(s: Seq<char>, i: int)
    requires
        0 <= i <= s.len(),
    ensures
        i <= normal_end(s, i) <= s.len(),
        i < s.len() && !(is_space(s[i]) || s[i] == '"' || s[i] == '\'') ==> normal_end(s, i) > i,
    decreases s.len() - i,
{
    if i < s.len() {
        if s[i] == '\\' {
            if i + 1 < s.len() {
                lemma_normal_end_bounds(s, i + 2);
            }
        } else if !(is_space(s[i]) || s[i] == '"' || s[i] == '\'') {
            lemma_normal_end_bounds(s, i + 1);
        }
    }
}

/// One word scanned from `i` (not white space, not the end): the
/// concatenation of quoted and unquoted parts, and the index after them.
/// `None` when a quote never closes.
pub open spec fn scan_word(s: Seq<char>, i: int) -> Option<(Seq<char>, int)>
    decreases s.len() - i, 0int,
    via scan_word_decreases
{
    if i < 0 || i >= s.len() || is_space(s[i]) {
        Some((Seq::empty(), i))
    } else if s[i] == '"' {
        match dquote_end(s, i + 1) {
            None => None,
            Some(e) => match scan_word(s, e + 1) {
                None => None,
                Some((rest, j)) => Some((s.subrange(i + 1, e) + rest, j)),
            },
        }
    } else if s[i] == '\'' {
        match squote_end(s, i + 1) {
            None => None,
            Some(e) => match scan_word(s, e + 1) {
                None => None,
                Some((rest, j)) => Some((s.subrange(i + 1, e) + rest, j)),
            },
        }
    } else {
        let e = normal_end(s, i);
        match scan_word(s, e) {
            None => None,
            Some((rest, j)) => Some((s.subrange(i, e) + rest, j)),
        }
    }
}

#[via_fn]
proof fn scan_word_decreases(s: Seq<char>, i: int) {
    if i < 0 || i >= s.len() || is_space(s[i]) {
    } else if s[i] == '"' {
        lemma_dquote_end_bounds(s, i + 1);
    } else if s[i] == '\'' {
        lemma_squote_end_bounds(s, i + 1);
    } else {
        lemma_normal_end_bounds(s, i);
    }
}

/// The first index at or after `i` that is not white space.
pub open spec fn skip_spaces(s: Seq<char>, i: int) -> int
    decreases s.len() - i,
{
    if i < 0 || i >= s.len() || !is_space(s[i]) {
        i
    } else {
        skip_spaces(s, i + 1)
    }
}

pub proof fn lemma_skip_spaces_bounds(s: Seq<char>, i: int)
    requires
        0 <= i <= s.len(),
    ensures
        i <= skip_spaces(s, i) <= s.len(),
        skip_spaces(s, i) < s.len() ==> !is_space(s[skip_spaces(s, i)]),
    decreases s.len() - i,
{
    if i < s.len() && is_space(s[i]) {
        lemma_skip_spaces_bounds(s, i + 1);
    }
}

pub proof fn lemma_scan_word_bounds(s: Seq<char>, i: int)
    requires
        0 <= i <= s.len(),
    ensures
        scan_word(s, i) matches Some((w, j)) ==> i <= j <= s.len(),
        i < s.len() && !is_space(s[i]) ==> (scan_word(s, i) matches Some((w, j)) ==> j > i),
    decreases s.len() - i,
{
    if i < s.len() && !is_space(s[i]) {
        if s[i] == '"' {
            lemma_dquote_end_bounds(s, i + 1);
            match dquote_end(s, i + 1) {
                Some(e) => {
                    lemma_scan_word_bounds(s, e + 1);
                },
                None => {
                },
            }
        } else if s[i] == '\'' {
            lemma_squote_end_bounds(s, i + 1);
            match squote_end(s, i + 1) {
                Some(e) => {
                    lemma_scan_word_bounds(s, e + 1);
                },
                None => {
                },
            }
        } else {
            lemma_normal_end_bounds(s, i);
            lemma_scan_word_bounds(s, normal_end(s, i));
        }
    }
}

/// The words of the whole token string from `i` on; `None` when a quote
/// never closes.
pub open spec fn tokenize_spec(s: Seq<char>, i: int) -> Option<Seq<Seq<char>>>
    decreases s.len() - i, 1int,
    via tokenize_decreases
{
    let b = skip_spaces(s, i);
    if b < 0 || b >= s.len() {
        Some(Seq::empty())
    } else {
        match scan_word(s, b) {
            None => None,
            Some((w, j)) => match tokenize_spec(s, j) {
                None => None,
                Some(rest) => Some(seq![w] + rest),
            },
        }
    }
}

#[via_fn]
proof fn tokenize_decreases(s: Seq<char>, i: int) {
    if 0 <= i <= s.len() {
        lemma_skip_spaces_bounds(s, i);
        let b = skip_spaces(s, i);
        if b < s.len() {
            lemma_scan_word_bounds(s, b);
        }
    } else {
        let b = skip_spaces(s, i);
        if 0 <= b < s.len() {
            lemma_scan_word_bounds(s, b);
        }
    }
}

fn find_dquote_end(v: &Vec<char>, i: usize) -> (r: Option<usize>)
    requires
        i <= v@.len(),
    ensures
        match r {
            Some(e) => dquote_end(v@, i as int) == Some(e as int) && i <= e < v@.len(),
            None => dquote_end(v@, i as int) is None,
        },
{
    let n = v.len();
    let mut k = i;
    loop
        invariant_except_break
            i <= k <= n,
            n == v@.len(),
            dquote_end(v@, i as int) == dquote_end(v@, k as int),
        ensures
            i <= k <= n,
            match dquote_end(v@, i as int) {
                Some(e) => k <= e < v@.len() && v@[e] == '"' && k as int == e,
                None => k == n || (v@[k as int] == '\\' && k + 1 >= n),
            },
        decreases n - k,
    {
        if k == n {
            break ;
        }
        let c = v[k];
        if c == '"' {
            proof {
                lemma_dquote_end_bounds(v@, k as int);
            }
            break ;
        }
        if c == '\\' {
            if k + 1 < n {
                k += 2;
            } else {
                break ;
            }
        } else {
            k += 1;
        }
    }
    if k < v.len() {
        let c = v[k];
        if c == '"' {
            Some(k)
        } else {
            None
        }
    } else {
        None
    }
}

fn find_squote_end(v: &Vec<char>, i: usize) -> (r: Option<usize>)
    requires
        i <= v@.len(),
    ensures
        match r {
            Some(e) => squote_end(v@, i as int) == Some(e as int) && i <= e < v@.len(),
            None => squote_end(v@, i as int) is None,
        },
{
    let n = v.len();
    let mut k = i;
    while k < n && v[k] != '\''
        invariant
            i <= k <= n,
            n == v@.len(),
            squote_end(v@, i as int) == squote_end(v@, k as int),
        decreases n - k,
    {
        k += 1;
    }
    if k < n {
        proof {
            lemma_squote_end_bounds(v@, k as int);
        }
        Some(k)
    } else {
        None
    }
}

fn find_normal_end(v: &Vec<char>, i: usize) -> (e: usize)
    requires
        i <= v@.len(),
    ensures
        e as int == normal_end(v@, i as int),
        i <= e <= v@.len(),
{
    let n = v.len();
    let mut k = i;
    loop
        invariant_except_break
            i <= k <= n,
            n == v@.len(),
            normal_end(v@, i as int) == normal_end(v@, k as int),
        ensures
            k as int == normal_end(v@, i as int),
            i <= k <= n,
        decreases n - k,
    {
        if k == n {
            break ;
        }
        let c = v[k];
        if c == '\\' {
            if k + 1 < n {
                k += 2;
            } else {
                k = n;
                break ;
            }
        } else if is_space_exec(c) || c == '"' || c == '\'' {
            break ;
        } else {
            k += 1;
        }
    }
    k
}

/// One word scanned from `i`, as the specification's `scan_word` yields it.
fn scan_word_exec(v: &Vec<char>, i: usize) -> (r: Option<(Vec<char>, usize)>)
    requires
        i <= v@.len(),
    ensures
        match r {
            Some((w, j)) => scan_word(v@, i as int) == Some((w@, j as int)) && i <= j <= v@.len(),
            None => scan_word(v@, i as int) is None,
        },
    decreases v@.len() - i,
{
    let n = v.len();
    if i == n || is_space_exec(v[i]) {
        let w: Vec<char> = Vec::new();
        proof {
            assert(scan_word(v@, i as int) == Some((Seq::<char>::empty(), i as int)));
            assert(w@ =~= Seq::<char>::empty());
        }
        return Some((w, i));
    }
    let c = v[i];
    if c == '"' {
        match find_dquote_end(v, i + 1) {
            None => None,
            Some(e) => {
                proof {
                    lemma_dquote_end_bounds(v@, i + 1);
                }
                match scan_word_exec(v, e + 1) {
                    None => None,
                    Some((rest, j)) => {
                        let mut w = subvec(v, i + 1, e);
                        crate::replace::push_range(&mut w, &rest, 0, rest.len());
                        proof {
                            assert(rest@.subrange(0, rest@.len() as int) =~= rest@);
                        }
                        Some((w, j))
                    },
                }
            },
        }
    } else if c == '\'' {
        match find_squote_end(v, i + 1) {
            None => None,
            Some(e) => {
                match scan_word_exec(v, e + 1) {
                    None => None,
                    Some((rest, j)) => {
                        let mut w = subvec(v, i + 1, e);
                        crate::replace::push_range(&mut w, &rest, 0, rest.len());
                        proof {
                            assert(rest@.subrange(0, rest@.len() as int) =~= rest@);
                        }
                        Some((w, j))
                    },
                }
            },
        }
    } else {
        let e = find_normal_end(v, i);
        proof {
            lemma_normal_end_bounds(v@, i as int);
        }
        match scan_word_exec(v, e) {
            None => None,
            Some((rest, j)) => {
                let mut w = subvec(v, i, e);
                crate::replace::push_range(&mut w, &rest, 0, rest.len());
                proof {
                    assert(rest@.subrange(0, rest@.len() as int) =~= rest@);
                }
                Some((w, j))
            },
        }
    }
}

/// Joins a word prefix with the words still to come.
pub open spec fn opt_words(prefix: Seq<Seq<char>>, rest: Option<Seq<Seq<char>>>) -> Option<
    Seq<Seq<char>>,
> {
    match rest {
        None => None,
        Some(r) => Some(prefix + r),
    }
}

/// Splits one embedded token string into words; `None` when a quote never
/// closes.
pub fn tokenize(s: &str) -> (r: Option<Vec<String>>)
    ensures
        match (r, tokenize_spec(s@, 0)) {
            (Some(words), Some(ws)) => words@.map_values(|w: String| w@) == ws,
            (None, None) => true,
            _ => false,
        },
{
    let v = chars_vec(s);
    let n = v.len();
    let mut words: Vec<String> = Vec::new();
    let mut i: usize = 0;
    let ghost target = tokenize_spec(v@, 0);
    proof {
        assert(words@.map_values(|w: String| w@) =~= Seq::<Seq<char>>::empty());
        assert(target == opt_words(
            words@.map_values(|w: String| w@),
            tokenize_spec(v@, i as int),
        ));
    }
    loop
        invariant_except_break
            i <= n,
            n == v@.len(),
            v@ == s@,
            target == tokenize_spec(v@, 0),
            target == opt_words(words@.map_values(|w: String| w@), tokenize_spec(v@, i as int)),
        ensures
            target == opt_words(words@.map_values(|w: String| w@), tokenize_spec(v@, i as int)),
            tokenize_spec(v@, i as int) matches Some(rest) && rest.len() == 0,
        decreases n - i,
    {
        let ghost i0 = i as int;
        while i < n && is_space_exec(v[i])
            invariant
                i0 <= i <= n,
                n == v@.len(),
                skip_spaces(v@, i0) == skip_spaces(v@, i as int),
            decreases n - i,
        {
            i += 1;
        }
        proof {
            assert(skip_spaces(v@, i as int) == i as int);
            assert(skip_spaces(v@, i0) == i as int);
        }
        if i == n {
            proof {
                assert(tokenize_spec(v@, i0) == Some(Seq::<Seq<char>>::empty()));
                assert(tokenize_spec(v@, i as int) == Some(Seq::<Seq<char>>::empty()));
                assert(opt_words(words@.map_values(|w: String| w@), tokenize_spec(v@, i0))
                    == opt_words(words@.map_values(|w: String| w@), tokenize_spec(v@, i as int)));
            }
            break ;
        }
        match scan_word_exec(&v, i) {
            None => {
                proof {
                    assert(tokenize_spec(v@, i0) is None);
                }
                return None;
            },
            Some((w, j)) => {
                proof {
                    lemma_scan_word_bounds(v@, i as int);
                    assert(j > i);
                }
                let ghost prev = words@;
                words.push(string_of(&w));
                proof {
                    let f = |x: String| x@;
                    assert(words@.drop_last() =~= prev);
                    assert(words@.map_values(f) =~= prev.map_values(f).push(words@.last()@));
                    assert(words@.last()@ == w@);
                    assert(tokenize_spec(v@, i0) == (match tokenize_spec(v@, j as int) {
                        None => None::<Seq<Seq<char>>>,
                        Some(rest) => Some(seq![w@] + rest),
                    }));
                    match tokenize_spec(v@, j as int) {
                        None => {
                            assert(tokenize_spec(v@, i0) is None);
                        },
                        Some(rest) => {
                            assert(prev.map_values(f) + (seq![w@] + rest) =~= words@.map_values(f)
                                + rest);
                        },
                    }
                }
                i = j;
            },
        }
    }
    proof {
        match target {
            Some(ws) => {
                assert(ws =~= words@.map_values(|w: String| w@));
            },
            None => {
                assert(false);
            },
        }
    }
    Some(words)
}

} // verus!
