//! Text helpers: lines, the `&&` separator between chained commands,
//! whitespace trimming, and the calls into `regex` and std's case mapping.

use vstd::prelude::*;
use crate::paths::{segments, split_on, strs};

verus! {

/// The groups of the first match of the regular expression `pattern` in
/// `text`, as `regex` finds them.
pub uninterp spec fn regex_captures(pattern: Seq<char>, text: Seq<char>) -> Option<
    Seq<Option<Seq<char>>>,
>;

pub open spec fn groups_view(r: Option<Vec<Option<String>>>) -> Option<Seq<Option<Seq<char>>>> {
    match r {
        Some(v) => Some(
            v@.map_values(
                |g: Option<String>|
                    match g {
                        Some(s) => Some(s@),
                        None => None,
                    },
            ),
        ),
        None => None,
    }
}

/// Relies on `regex::Regex::new` and `regex::Regex::captures`: the capture
/// groups of the first match of `pattern` in `text`, group 0 (the whole
/// match) first, each `None` where the group took no part in the match;
/// `None` when `pattern` is no valid expression or nothing matches. The
/// groups depend on the pattern and the text alone, and a match always
/// has group 0.
#[verifier::external_body]
pub(crate) fn captures(pattern: &str, text: &str) -> (r: Option<Vec<Option<String>>>)
    ensures
        groups_view(r) == regex_captures(pattern@, text@),
        r matches Some(v) ==> v@.len() >= 1,
{
    let re = regex::Regex::new(pattern).ok()?;
    let caps = re.captures(text)?;
    Some(caps.iter().map(|m| m.map(|m| m.as_str().to_string())).collect())
}

/// `s` in lower case, as std's `str::to_lowercase` gives it.
pub uninterp spec fn lower_of(s: Seq<char>) -> Seq<char>;

/// Relies on `str::to_lowercase`: the lower-case form of `s`, which
/// depends on its characters alone.
#[verifier::external_body]
pub(crate) fn to_lower(s: &str) -> (r: String)
    ensures
        r@ == lower_of(s@),
{
    s.to_lowercase()
}

/// Whitespace as std's `char::is_whitespace` defines it: the Unicode
/// White_Space characters.
pub open spec fn is_white(c: char) -> bool {
    let u = c as u32;
    (9 <= u <= 13) || u == 32 || u == 0x85 || u == 0xa0 || u == 0x1680 || (0x2000 <= u
        <= 0x200a) || u == 0x2028 || u == 0x2029 || u == 0x202f || u == 0x205f || u == 0x3000
}

pub fn is_white_char(c: char) -> (r: bool)
    ensures
        r == is_white(c),
{
    let u = c as u32;
    (9 <= u && u <= 13) || u == 32 || u == 0x85 || u == 0xa0 || u == 0x1680 || (0x2000 <= u && u
        <= 0x200a) || u == 0x2028 || u == 0x2029 || u == 0x202f || u == 0x205f || u == 0x3000
}

/// `s` without its leading whitespace.
pub open spec fn trim_front(s: Seq<char>) -> Seq<char>
    decreases s.len(),
{
    if s.len() > 0 && is_white(s[0]) {
        trim_front(s.drop_first())
    } else {
        s
    }
}

/// `s` without its trailing whitespace.
pub open spec fn trim_back(s: Seq<char>) -> Seq<char>
    decreases s.len(),
{
    if s.len() > 0 && is_white(s.last()) {
        trim_back(s.drop_last())
    } else {
        s
    }
}

/// `s` without leading and trailing whitespace.
pub open spec fn trimmed(s: Seq<char>) -> Seq<char> {
    trim_back(trim_front(s))
}

/// `s` without leading and trailing whitespace.
pub fn trim(s: &str) -> (r: String)
    ensures
        r@ == trimmed(s@),
{
    let n = s.unicode_len();
    let mut i: usize = 0;
    proof {
        assert(s@.subrange(0, n as int) =~= s@);
    }
    while i < n && is_white_char(s.get_char(i))
        invariant
            n == s@.len(),
            i <= n,
            trim_front(s@) == trim_front(s@.subrange(i as int, n as int)),
        decreases n - i,
    {
        proof {
            assert(s@.subrange(i as int, n as int).drop_first() =~= s@.subrange(i + 1, n as int));
        }
        i = i + 1;
    }
    let mut j: usize = n;
    while j > i && is_white_char(s.get_char(j - 1))
        invariant
            n == s@.len(),
            i <= j <= n,
            trim_front(s@) == s@.subrange(i as int, n as int),
            trimmed(s@) == trim_back(s@.subrange(i as int, j as int)),
        decreases j - i,
    {
        proof {
            assert(s@.subrange(i as int, j as int).drop_last() =~= s@.subrange(i as int, j - 1));
        }
        j = j - 1;
    }
    String::from_str(s.substring_char(i, j))
}

/// `l` without one trailing carriage return.
pub open spec fn strip_cr(l: Seq<char>) -> Seq<char> {
    if l.len() > 0 && l.last() == '\r' {
        l.drop_last()
    } else {
        l
    }
}

/// The lines of `s`: the pieces between newlines, each without a trailing
/// carriage return; a final newline ends the last line and starts none.
pub open spec fn lines_of(s: Seq<char>) -> Seq<Seq<char>> {
    let p = segments(s, '\n');
    let q = if p.last().len() == 0 {
        p.drop_last()
    } else {
        p
    };
    q.map_values(|l: Seq<char>| strip_cr(l))
}

pub fn text_lines(s: &str) -> (r: Vec<String>)
    ensures
        strs(r@) == lines_of(s@),
{
    let pieces = split_on(s, '\n');
    proof {
        crate::paths::lemma_segments_len(s@, '\n');
    }
    let n = pieces.len();
    let keep = if pieces[n - 1].as_str().unicode_len() == 0 {
        n - 1
    } else {
        n
    };
    let ghost q = strs(pieces@).subrange(0, keep as int);
    proof {
        if keep == n {
            assert(q =~= strs(pieces@));
        } else {
            assert(q =~= strs(pieces@).drop_last());
        }
    }
    let mut r: Vec<String> = Vec::new();
    let mut i: usize = 0;
    while i < keep
        invariant
            keep <= pieces@.len(),
            q == strs(pieces@).subrange(0, keep as int),
            i <= keep,
            strs(r@) == q.subrange(0, i as int).map_values(|l: Seq<char>| strip_cr(l)),
        decreases keep - i,
    {
        let l = pieces[i].as_str();
        let m = l.unicode_len();
        let line = if m > 0 && l.get_char(m - 1) == '\r' {
            String::from_str(l.substring_char(0, m - 1))
        } else {
            String::from_str(l)
        };
        proof {
            if m > 0 && l@[m - 1] == '\r' {
                assert(l@.subrange(0, m - 1) =~= l@.drop_last());
            }
            assert(strs(r@.push(line)) =~= strs(r@).push(line@));
            assert(q.subrange(0, i + 1).map_values(|l: Seq<char>| strip_cr(l)) =~= q.subrange(
                0,
                i as int,
            ).map_values(|l: Seq<char>| strip_cr(l)).push(strip_cr(q[i as int])));
        }
        r.push(line);
        i = i + 1;
    }
    proof {
        assert(q.subrange(0, keep as int) =~= q);
    }
    r
}

/// `x` put in front of the first piece of `r`.
pub open spec fn prepend(x: Seq<char>, r: Seq<Seq<char>>) -> Seq<Seq<char>> {
    r.update(0, x + r[0])
}

/// The pieces of `s` between the occurrences of `&&`, read from the left.
pub open spec fn split_chain(s: Seq<char>) -> Seq<Seq<char>>
    decreases s.len(),
{
    if s.len() < 2 {
        seq![s]
    } else if s[0] == '&' && s[1] == '&' {
        seq![Seq::empty()] + split_chain(s.subrange(2, s.len() as int))
    } else {
        prepend(seq![s[0]], split_chain(s.drop_first()))
    }
}

proof fn lemma_split_chain_len(s: Seq<char>)
    ensures
        split_chain(s).len() >= 1,
    decreases s.len(),
{
    if s.len() >= 2 {
        if s[0] == '&' && s[1] == '&' {
            lemma_split_chain_len(s.subrange(2, s.len() as int));
        } else {
            lemma_split_chain_len(s.drop_first());
        }
    }
}

/// Splits a chained command at every `&&`.
pub fn split_chained(s: &str) -> (r: Vec<String>)
    ensures
        strs(r@) == split_chain(s@),
{
    let n = s.unicode_len();
    let mut done: Vec<String> = Vec::new();
    let mut start: usize = 0;
    let mut i: usize = 0;
    proof {
        assert(s@.subrange(0, n as int) =~= s@);
        lemma_split_chain_len(s@);
        assert(s@.subrange(0, 0) =~= Seq::<char>::empty());
        assert(prepend(Seq::empty(), split_chain(s@)) =~= split_chain(s@));
        assert(strs(done@) + split_chain(s@) =~= split_chain(s@));
    }
    while n - i >= 2
        invariant
            n == s@.len(),
            start <= i <= n,
            split_chain(s@) == strs(done@) + prepend(
                s@.subrange(start as int, i as int),
                split_chain(s@.subrange(i as int, n as int)),
            ),
        decreases n - i,
    {
        let ghost rest = s@.subrange(i as int, n as int);
        let ghost cur = s@.subrange(start as int, i as int);
        let c0 = s.get_char(i);
        let c1 = s.get_char(i + 1);
        if c0 == '&' && c1 == '&' {
            let piece = String::from_str(s.substring_char(start, i));
            proof {
                assert(rest.subrange(2, rest.len() as int) =~= s@.subrange(i + 2, n as int));
                lemma_split_chain_len(s@.subrange(i + 2, n as int));
                let tail = split_chain(s@.subrange(i + 2, n as int));
                assert(prepend(cur, seq![Seq::empty()] + tail) =~= seq![cur] + prepend(
                    Seq::empty(),
                    tail,
                ));
                assert(s@.subrange(i + 2, i + 2) =~= Seq::<char>::empty());
                assert(strs(done@.push(piece)) =~= strs(done@).push(piece@));
                assert(strs(done@) + (seq![cur] + prepend(Seq::empty(), tail)) =~= strs(
                    done@.push(piece),
                ) + prepend(s@.subrange(i + 2, i + 2), tail));
            }
            done.push(piece);
            start = i + 2;
            i = i + 2;
        } else {
            proof {
                assert(rest.drop_first() =~= s@.subrange(i + 1, n as int));
                lemma_split_chain_len(s@.subrange(i + 1, n as int));
                let tail = split_chain(s@.subrange(i + 1, n as int));
                assert(s@.subrange(start as int, i + 1) =~= cur + seq![c0]);
                assert(cur + (seq![c0] + tail[0]) =~= (cur + seq![c0]) + tail[0]);
                assert(prepend(cur, prepend(seq![c0], tail)) =~= prepend(cur + seq![c0], tail));
            }
            i = i + 1;
        }
    }
    let piece = String::from_str(s.substring_char(start, n));
    proof {
        let rest = s@.subrange(i as int, n as int);
        assert(rest.len() < 2);
        assert(split_chain(rest) == seq![rest]);
        assert(s@.subrange(start as int, i as int) + rest =~= s@.subrange(start as int, n as int));
        assert(prepend(s@.subrange(start as int, i as int), seq![rest]) =~= seq![
            s@.subrange(start as int, n as int),
        ]);
        assert(strs(done@.push(piece)) =~= strs(done@).push(piece@));
    }
    done.push(piece);
    done
}

} // verus!
