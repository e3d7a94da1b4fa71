use vstd::prelude::*;

verus! {

/// Whether `c` carries the Unicode `White_Space` property.
pub open spec fn is_space(c: char) -> bool {
    ('\u{9}' <= c && c <= '\u{d}') || c == ' ' || c == '\u{85}' || c == '\u{a0}' || c
        == '\u{1680}' || ('\u{2000}' <= c && c <= '\u{200a}') || c == '\u{2028}' || c
        == '\u{2029}' || c == '\u{202f}' || c == '\u{205f}' || c == '\u{3000}'
}

/// The pieces of `s` between occurrences of `sep`, in order; an empty text gives one
/// empty piece.
pub open spec fn split_on(s: Seq<char>, sep: char) -> Seq<Seq<char>>
    decreases s.len(),
{
    if s.len() == 0 {
        seq![Seq::<char>::empty()]
    } else {
        let t = split_on(s.drop_last(), sep);
        if s.last() == sep {
            t.push(Seq::<char>::empty())
        } else {
            t.update(t.len() - 1, t.last().push(s.last()))
        }
    }
}

/// Length of the longest prefix of `t` that holds neither `-` nor `;`.
pub open spec fn segment_len(t: Seq<char>) -> nat
    decreases t.len(),
{
    if t.len() == 0 || t[0] == '-' || t[0] == ';' {
        0
    } else {
        1 + segment_len(t.drop_first())
    }
}

pub open spec fn trim_start(s: Seq<char>) -> Seq<char>
    decreases s.len(),
{
    if s.len() > 0 && is_space(s[0]) {
        trim_start(s.drop_first())
    } else {
        s
    }
}

pub open spec fn trim_end(s: Seq<char>) -> Seq<char>
    decreases s.len(),
{
    if s.len() > 0 && is_space(s.last()) {
        trim_end(s.drop_last())
    } else {
        s
    }
}

pub open spec fn trim(s: Seq<char>) -> Seq<char> {
    trim_end(trim_start(s))
}

/// The locale that a preference token names: the token up to its first `-` or `;`,
/// with surrounding white space removed.
pub open spec fn locale_prefix(t: Seq<char>) -> Seq<char> {
    trim(t.take(segment_len(t) as int))
}

/// The locale prefixes of the comma-separated tokens of `raw`, in the order given.
pub open spec fn preferences(raw: Seq<char>) -> Seq<Seq<char>> {
    split_on(raw, ',').map_values(|t: Seq<char>| locale_prefix(t))
}

pub open spec fn views(v: Seq<Vec<char>>) -> Seq<Seq<char>> {
    v.map_values(|x: Vec<char>| x@)
}

fn is_space_char(c: char) -> (r: bool)
    ensures
        r == is_space(c),
{
    ('\u{9}' <= c && c <= '\u{d}') || c == ' ' || c == '\u{85}' || c == '\u{a0}' || c
        == '\u{1680}' || ('\u{2000}' <= c && c <= '\u{200a}') || c == '\u{2028}' || c
        == '\u{2029}' || c == '\u{202f}' || c == '\u{205f}' || c == '\u{3000}'
}

/// The characters of `s`, in order.
pub fn chars_of(s: &str) -> (r: Vec<char>)
    ensures
        r@ == s@,
{
    let mut r: Vec<char> = Vec::new();
    for c in it: s.chars()
        invariant
            it.seq() == s@,
            r@ == it.seq().take(it.index() as int),
    {
        proof {
            assert(it.seq().take(it.index() + 1) =~= it.seq().take(it.index() as int).push(c));
        }
        r.push(c);
    }
    proof {
        assert(r@ =~= s@);
    }
    r
}

/// Whether `a` and `b` hold the same characters.
pub fn same_chars(a: &Vec<char>, b: &Vec<char>) -> (r: bool)
    ensures
        r == (a@ == b@),
{
    if a.len() != b.len() {
        return false;
    }
    let mut i: usize = 0;
    while i < a.len()
        invariant
            i <= a.len(),
            a.len() == b.len(),
            forall|j: int| 0 <= j < i ==> a@[j] == b@[j],
        decreases a.len() - i,
    {
        if a[i] != b[i] {
            return false;
        }
        i += 1;
    }
    proof {
        assert(a@ =~= b@);
    }
    true
}

/// The locale prefix of the token `t`.
pub fn prefix_of_token(t: &Vec<char>) -> (r: Vec<char>)
    ensures
        r@ == locale_prefix(t@),
{
    let mut k: usize = 0;
    proof {
        assert(t@.skip(0) =~= t@);
    }
    while k < t.len() && t[k] != '-' && t[k] != ';'
        invariant
            k <= t.len(),
            segment_len(t@) == k + segment_len(t@.skip(k as int)),
        decreases t.len() - k,
    {
        proof {
            assert(t@.skip(k as int).drop_first() =~= t@.skip(k + 1));
        }
        k += 1;
    }
    let mut lo: usize = 0;
    proof {
        assert(t@.subrange(0, k as int) =~= t@.take(k as int));
    }
    while lo < k && is_space_char(t[lo])
        invariant
            lo <= k <= t.len(),
            trim_start(t@.take(k as int)) == trim_start(t@.subrange(lo as int, k as int)),
        decreases k - lo,
    {
        proof {
            assert(t@.subrange(lo as int, k as int).drop_first() =~= t@.subrange(
                lo + 1,
                k as int,
            ));
        }
        lo += 1;
    }
    let mut hi: usize = k;
    while hi > lo && is_space_char(t[hi - 1])
        invariant
            lo <= hi <= k <= t.len(),
            trim_start(t@.take(k as int)) == t@.subrange(lo as int, k as int),
            trim_end(t@.subrange(lo as int, k as int)) == trim_end(
                t@.subrange(lo as int, hi as int),
            ),
        decreases hi - lo,
    {
        proof {
            assert(t@.subrange(lo as int, hi as int).drop_last() =~= t@.subrange(
                lo as int,
                hi - 1,
            ));
        }
        hi -= 1;
    }
    let mut r: Vec<char> = Vec::new();
    let mut j: usize = lo;
    while j < hi
        invariant
            lo <= j <= hi <= t.len(),
            r@ == t@.subrange(lo as int, j as int),
        decreases hi - j,
    {
        proof {
            assert(t@.subrange(lo as int, j + 1) =~= t@.subrange(lo as int, j as int).push(t@[j as int]));
        }
        r.push(t[j]);
        j += 1;
    }
    r
}

/// The comma-separated tokens of `s`, in order.
pub fn split_commas(s: &Vec<char>) -> (r: Vec<Vec<char>>)
    ensures
        views(r@) == split_on(s@, ','),
{
    let mut toks: Vec<Vec<char>> = Vec::new();
    let mut cur: Vec<char> = Vec::new();
    let mut i: usize = 0;
    proof {
        assert(s@.take(0) =~= Seq::<char>::empty());
        assert(views(toks@).push(cur@) =~= seq![Seq::<char>::empty()]);
    }
    while i < s.len()
        invariant
            i <= s.len(),
            split_on(s@.take(i as int), ',') == views(toks@).push(cur@),
        decreases s.len() - i,
    {
        let c = s[i];
        proof {
            assert(s@.take(i + 1).drop_last() =~= s@.take(i as int));
        }
        if c == ',' {
            toks.push(cur);
            cur = Vec::new();
        } else {
            cur.push(c);
        }
        i += 1;
        proof {
            assert(split_on(s@.take(i as int), ',') =~= views(toks@).push(cur@));
        }
    }
    toks.push(cur);
    proof {
        assert(s@.take(s.len() as int) =~= s@);
        assert(views(toks@) =~= split_on(s@, ','));
    }
    toks
}

/// The locale prefixes of the comma-separated tokens of `raw`, in the order given.
pub fn preference_tags(raw: &str) -> (r: Vec<Vec<char>>)
    ensures
        views(r@) == preferences(raw@),
{
    let s = chars_of(raw);
    let toks = split_commas(&s);
    let mut r: Vec<Vec<char>> = Vec::new();
    let mut i: usize = 0;
    while i < toks.len()
        invariant
            i <= toks.len(),
            views(toks@) == split_on(raw@, ','),
            views(r@) == preferences(raw@).take(i as int),
        decreases toks.len() - i,
    {
        let p = prefix_of_token(&toks[i]);
        proof {
            assert(toks@[i as int]@ == split_on(raw@, ',')[i as int]);
            assert(preferences(raw@)[i as int] == locale_prefix(split_on(raw@, ',')[i as int]));
            assert(preferences(raw@).take(i + 1) =~= preferences(raw@).take(i as int).push(p@));
            assert(views(r@.push(p)) =~= views(r@).push(p@));
        }
        r.push(p);
        i += 1;
    }
    proof {
        assert(preferences(raw@).take(i as int) =~= preferences(raw@));
    }
    r
}

} // verus!
