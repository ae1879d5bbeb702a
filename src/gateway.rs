use vstd::prelude::*;
use crate::address::{Address, is_digit, parse_address, parse_address_spec};
use crate::address::is_octet_text;
use crate::text::{
    chars_of, lemma_split_keep_nonempty, split_keep, split_on, split_words, views, words,
};

verus! {

pub open spec fn via_word() -> Seq<char> {
    seq!['v', 'i', 'a']
}

pub open spec fn gateway_word() -> Seq<char> {
    seq!['G', 'a', 't', 'e', 'w', 'a', 'y']
}

/// A token that announces the next hop: exactly "via", or any token that
/// contains "Gateway" (case-sensitive).
pub open spec fn is_marker(t: Seq<char>) -> bool {
    t == via_word() || exists|k: int|
        0 <= k && k + 7 <= t.len() && #[trigger] t.subrange(k, k + 7) == gateway_word()
}

/// A character that cleaning keeps: a digit or '.'.
pub open spec fn is_kept(c: char) -> bool {
    is_digit(c) || c == '.'
}

pub open spec fn trim_front(t: Seq<char>) -> Seq<char>
    decreases t.len(),
{
    if t.len() > 0 && !is_kept(t[0]) {
        trim_front(t.drop_first())
    } else {
        t
    }
}

pub open spec fn trim_back(t: Seq<char>) -> Seq<char>
    decreases t.len(),
{
    if t.len() > 0 && !is_kept(t.last()) {
        trim_back(t.drop_last())
    } else {
        t
    }
}

/// A token with every character at either end that is neither a digit nor
/// '.' stripped.
pub open spec fn clean(t: Seq<char>) -> Seq<char> {
    trim_back(trim_front(t))
}

/// The address that the token at `i` of `toks` names, if any.
pub open spec fn token_address(toks: Seq<Seq<char>>, i: int) -> Option<Address> {
    if 0 <= i < toks.len() {
        parse_address_spec(clean(toks[i]))
    } else {
        None
    }
}

/// The address named after a marker at `i`: the next token, or the one after
/// it where the next one is no address.
pub open spec fn candidate(toks: Seq<Seq<char>>, i: int) -> Option<Address> {
    if token_address(toks, i + 1) is Some {
        token_address(toks, i + 1)
    } else {
        token_address(toks, i + 2)
    }
}

/// The first address named after a marker among the tokens from `i` on.
pub open spec fn line_gateway_from(toks: Seq<Seq<char>>, i: int) -> Option<Address>
    decreases toks.len() - i,
{
    if i < 0 || i >= toks.len() {
        None
    } else if is_marker(toks[i]) && candidate(toks, i) is Some {
        candidate(toks, i)
    } else {
        line_gateway_from(toks, i + 1)
    }
}

/// The gateway named by the first line, from `k` on, that names one.
pub open spec fn gateway_from(lines: Seq<Seq<char>>, k: int) -> Option<Address>
    decreases lines.len() - k,
{
    if k < 0 || k >= lines.len() {
        None
    } else if line_gateway_from(words(lines[k]), 0) is Some {
        line_gateway_from(words(lines[k]), 0)
    } else {
        gateway_from(lines, k + 1)
    }
}

/// The default gateway that route-table text names.
pub open spec fn gateway_of(text: Seq<char>) -> Option<Address> {
    gateway_from(split_keep(text, '\n'), 0)
}

fn is_marker_token(t: &Vec<char>) -> (r: bool)
    ensures
        r == is_marker(t@),
{
    let n = t.len();
    if n == 3 && t[0] == 'v' && t[1] == 'i' && t[2] == 'a' {
        assert(t@ =~= via_word());
        return true;
    }
    assert(t@ != via_word()) by {
        if t@ == via_word() {
            assert(t@[0] == 'v' && t@[1] == 'i' && t@[2] == 'a');
        }
    }
    if n < 7 {
        return false;
    }
    let mut k: usize = 0;
    while k <= n - 7
        invariant
            n == t@.len(),
            n >= 7,
            k <= n - 6,
            forall|j: int| 0 <= j < k ==> #[trigger] t@.subrange(j, j + 7) != gateway_word(),
        decreases n - k,
    {
        if t[k] == 'G' && t[k + 1] == 'a' && t[k + 2] == 't' && t[k + 3] == 'e' && t[k + 4] == 'w'
            && t[k + 5] == 'a' && t[k + 6] == 'y' {
            assert(t@.subrange(k as int, k + 7) =~= gateway_word());
            return true;
        }
        assert(t@.subrange(k as int, k + 7) != gateway_word()) by {
            if t@.subrange(k as int, k + 7) == gateway_word() {
                assert(t@.subrange(k as int, k + 7)[0] == t@[k as int]);
                assert(t@.subrange(k as int, k + 7)[1] == t@[k + 1]);
                assert(t@.subrange(k as int, k + 7)[2] == t@[k + 2]);
                assert(t@.subrange(k as int, k + 7)[3] == t@[k + 3]);
                assert(t@.subrange(k as int, k + 7)[4] == t@[k + 4]);
                assert(t@.subrange(k as int, k + 7)[5] == t@[k + 5]);
                assert(t@.subrange(k as int, k + 7)[6] == t@[k + 6]);
            }
        }
        k = k + 1;
    }
    false
}

fn is_kept_char(c: char) -> (r: bool)
    ensures
        r == is_kept(c),
{
    ('0' <= c && c <= '9') || c == '.'
}

/// Strips, from both ends of `t`, the characters that are neither digits nor '.'.
pub fn clean_token(t: &Vec<char>) -> (r: Vec<char>)
    ensures
        r@ == clean(t@),
{
    let n = t.len();
    let mut lo: usize = 0;
    assert(t@.subrange(0, n as int) =~= t@);
    while lo < n && !is_kept_char(t[lo])
        invariant
            n == t@.len(),
            lo <= n,
            trim_front(t@) == trim_front(t@.subrange(lo as int, n as int)),
        decreases n - lo,
    {
        assert(t@.subrange(lo as int, n as int).drop_first() =~= t@.subrange(lo + 1, n as int));
        lo = lo + 1;
    }
    let mut hi: usize = n;
    assert(trim_front(t@) == t@.subrange(lo as int, n as int));
    while hi > lo && !is_kept_char(t[hi - 1])
        invariant
            n == t@.len(),
            lo <= hi <= n,
            trim_front(t@) == t@.subrange(lo as int, n as int),
            clean(t@) == trim_back(t@.subrange(lo as int, hi as int)),
        decreases hi - lo,
    {
        assert(t@.subrange(lo as int, hi as int).drop_last() =~= t@.subrange(lo as int, hi - 1));
        hi = hi - 1;
    }
    let mut r: Vec<char> = Vec::new();
    let mut i: usize = lo;
    while i < hi
        invariant
            n == t@.len(),
            lo <= i <= hi <= n,
            r@ == t@.subrange(lo as int, i as int),
        decreases hi - i,
    {
        r.push(t[i]);
        i = i + 1;
        assert(r@ =~= t@.subrange(lo as int, i as int));
    }
    r
}

fn token_address_at(toks: &Vec<Vec<char>>, i: usize) -> (r: Option<Address>)
    ensures
        r == token_address(views(toks@), i as int),
{
    if i < toks.len() {
        let cleaned = clean_token(&toks[i]);
        parse_address(cleaned.as_slice())
    } else {
        None
    }
}

fn line_gateway(toks: &Vec<Vec<char>>) -> (r: Option<Address>)
    ensures
        r == line_gateway_from(views(toks@), 0),
{
    let n = toks.len();
    let mut i: usize = 0;
    while i < n
        invariant
            n == toks@.len(),
            i <= n,
            line_gateway_from(views(toks@), 0) == line_gateway_from(views(toks@), i as int),
        decreases n - i,
    {
        if is_marker_token(&toks[i]) {
            let first = if i < n - 1 { token_address_at(toks, i + 1) } else { None };
            let found = match first {
                Some(x) => Some(x),
                None => if n - i > 2 { token_address_at(toks, i + 2) } else { None },
            };
            if found.is_some() {
                return found;
            }
        }
        i = i + 1;
    }
    None
}

/// The default gateway named by route-table text: the first line holding a
/// marker token followed by an address wins; no such line gives `None`.
pub fn detect_default_gateway(route_text: &str) -> (r: Option<Address>)
    ensures
        r == gateway_of(route_text@),
{
    let text = chars_of(route_text);
    let lines = split_on(text.as_slice(), '\n');
    let n = lines.len();
    let mut k: usize = 0;
    while k < n
        invariant
            n == lines@.len(),
            k <= n,
            views(lines@) == split_keep(route_text@, '\n'),
            gateway_of(route_text@) == gateway_from(views(lines@), k as int),
        decreases n - k,
    {
        let toks = split_words(lines[k].as_slice());
        let found = line_gateway(&toks);
        if found.is_some() {
            return found;
        }
        k = k + 1;
    }
    None
}

/// The tokens of line `m` of route-table text.
pub open spec fn line_words(text: Seq<char>, m: int) -> Seq<Seq<char>> {
    words(split_keep(text, '\n')[m])
}

proof fn lemma_skip_tokens(toks: Seq<Seq<char>>, i: int, j: int)
    requires
        0 <= i <= j <= toks.len(),
        forall|t: int| i <= t < j ==> !is_marker(#[trigger] toks[t]),
    ensures
        line_gateway_from(toks, i) == line_gateway_from(toks, j),
    decreases j - i,
{
    if i < j {
        lemma_skip_tokens(toks, i + 1, j);
    }
}

proof fn lemma_skip_lines(lines: Seq<Seq<char>>, k: int, m: int)
    requires
        0 <= k <= m <= lines.len(),
        forall|p: int| k <= p < m ==> (line_gateway_from(words(#[trigger] lines[p]), 0) is None),
    ensures
        gateway_from(lines, k) == gateway_from(lines, m),
    decreases m - k,
{
    if k < m {
        lemma_skip_lines(lines, k + 1, m);
    }
}

proof fn lemma_unmarked_line(toks: Seq<Seq<char>>)
    requires
        forall|t: int| 0 <= t < toks.len() ==> !is_marker(#[trigger] toks[t]),
    ensures
        line_gateway_from(toks, 0) is None,
{
    lemma_skip_tokens(toks, 0, toks.len() as int);
}

proof fn lemma_split_first(s: Seq<char>, sep: char)
    requires
        s.len() > 0,
    ensures
        s[0] == sep ==> split_keep(s, sep).len() >= 2 && split_keep(s, sep)[0].len() == 0,
        s[0] != sep ==> split_keep(s, sep)[0].len() > 0 && split_keep(s, sep)[0][0] == s[0],
    decreases s.len(),
{
    lemma_split_keep_nonempty(s.drop_last(), sep);
    if s.len() > 1 {
        lemma_split_first(s.drop_last(), sep);
    }
}

/// Text that spells an address begins and ends with a digit, so cleaning
/// leaves it as it is.
proof fn lemma_address_text_is_clean(t: Seq<char>)
    requires
        parse_address_spec(t) is Some,
    ensures
        clean(t) == t,
{
    let g = split_keep(t, '.');
    if t.len() == 0 {
        assert(g.len() == 1);
    }
    lemma_split_keep_nonempty(t.drop_last(), '.');
    lemma_split_first(t, '.');
    assert(is_octet_text(g[0]));
    assert(is_octet_text(g[3]));
    assert(t.last() != '.');
    assert(g[3].last() == t.last());
    assert(is_kept(t[0]));
    assert(is_kept(g[3][g[3].len() - 1]));
    assert(trim_front(t) == t);
    assert(trim_back(t) == t);
}

/// Where a line's first marker is "via" followed by an address, and no
/// earlier line holds a marker, that address is the gateway.
pub proof fn lemma_via_names_gateway(text: Seq<char>, m: int, j: int, x: Address)
    requires
        0 <= m < split_keep(text, '\n').len(),
        0 <= j && j + 1 < line_words(text, m).len(),
        line_words(text, m)[j] == via_word(),
        parse_address_spec(line_words(text, m)[j + 1]) == Some(x),
        forall|t: int| 0 <= t < j ==> !is_marker(#[trigger] line_words(text, m)[t]),
        forall|p: int, t: int|
            0 <= p < m && 0 <= t < line_words(text, p).len() ==> !is_marker(
                #[trigger] line_words(text, p)[t],
            ),
    ensures
        gateway_of(text) == Some(x),
{
    let lines = split_keep(text, '\n');
    let toks = line_words(text, m);
    lemma_address_text_is_clean(toks[j + 1]);
    lemma_skip_tokens(toks, 0, j);
    assert(is_marker(toks[j]));
    assert(candidate(toks, j) == Some(x));
    assert forall|p: int| 0 <= p < m implies (line_gateway_from(words(#[trigger] lines[p]), 0) is None) by {
        assert forall|t: int| 0 <= t < words(lines[p]).len() implies !is_marker(
            #[trigger] words(lines[p])[t],
        ) by {
            assert(words(lines[p])[t] == line_words(text, p)[t]);
        }
        lemma_unmarked_line(words(lines[p]));
    }
    lemma_skip_lines(lines, 0, m);
}

/// Route-table text in which no token is a marker names no gateway.
pub proof fn lemma_no_marker_no_gateway(text: Seq<char>)
    requires
        forall|p: int, t: int|
            0 <= p < split_keep(text, '\n').len() && 0 <= t < line_words(text, p).len()
                ==> !is_marker(#[trigger] line_words(text, p)[t]),
    ensures
        gateway_of(text) is None,
{
    let lines = split_keep(text, '\n');
    assert forall|p: int| 0 <= p < lines.len() implies (line_gateway_from(words(#[trigger] lines[p]), 0) is None) by {
        assert forall|t: int| 0 <= t < words(lines[p]).len() implies !is_marker(
            #[trigger] words(lines[p])[t],
        ) by {
            assert(words(lines[p])[t] == line_words(text, p)[t]);
        }
        lemma_unmarked_line(words(lines[p]));
    }
    lemma_skip_lines(lines, 0, lines.len() as int);
}

} // verus!
