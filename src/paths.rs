//! Paths as `/`-separated strings: splitting, joining, resolving the path
//! strings a module writes, and collapsing a module path into the
//! root-relative form used to attribute steps.

use vstd::prelude::*;

verus! {

/// The characters of each string of `v`.
pub open spec fn strs(v: Seq<String>) -> Seq<Seq<char>> {
    v.map_values(|x: String| x@)
}

/// The pieces of `s` between the occurrences of `sep`, empty pieces
/// included; a string without `sep` is one piece.
pub open spec fn segments(s: Seq<char>, sep: char) -> Seq<Seq<char>>
    decreases s.len(),
{
    if s.len() == 0 {
        seq![Seq::empty()]
    } else if s.last() == sep {
        segments(s.drop_last(), sep).push(Seq::empty())
    } else {
        let p = segments(s.drop_last(), sep);
        p.update(p.len() - 1, p.last().push(s.last()))
    }
}

pub proof fn lemma_segments_len(s: Seq<char>, sep: char)
    ensures
        segments(s, sep).len() >= 1,
    decreases s.len(),
{
    if s.len() > 0 {
        lemma_segments_len(s.drop_last(), sep);
    }
}

/// Splits `s` at every `sep`.
pub fn split_on(s: &str, sep: char) -> (r: Vec<String>)
    ensures
        strs(r@) == segments(s@, sep),
{
    let n = s.unicode_len();
    let mut done: Vec<String> = Vec::new();
    let mut start: usize = 0;
    let mut i: usize = 0;
    proof {
        assert(s@.subrange(0, 0) =~= Seq::<char>::empty());
        assert(strs(done@).push(s@.subrange(0, 0)) =~= seq![Seq::<char>::empty()]);
    }
    while i < n
        invariant
            n == s@.len(),
            start <= i <= n,
            segments(s@.subrange(0, i as int), sep) == strs(done@).push(
                s@.subrange(start as int, i as int),
            ),
        decreases n - i,
    {
        let c = s.get_char(i);
        proof {
            assert(s@.subrange(0, i + 1).drop_last() =~= s@.subrange(0, i as int));
        }
        if c == sep {
            let piece = String::from_str(s.substring_char(start, i));
            proof {
                assert(strs(done@.push(piece)) =~= strs(done@).push(piece@));
                assert(s@.subrange(i + 1, i + 1) =~= Seq::<char>::empty());
            }
            done.push(piece);
            start = i + 1;
        } else {
            proof {
                assert(s@.subrange(start as int, i + 1) =~= s@.subrange(
                    start as int,
                    i as int,
                ).push(c));
                assert(strs(done@).push(s@.subrange(start as int, i as int)).update(
                    done@.len() as int,
                    s@.subrange(start as int, i + 1),
                ) =~= strs(done@).push(s@.subrange(start as int, i + 1)));
            }
        }
        i = i + 1;
    }
    let piece = String::from_str(s.substring_char(start, n));
    proof {
        assert(s@.subrange(0, n as int) =~= s@);
        assert(strs(done@.push(piece)) =~= strs(done@).push(piece@));
    }
    done.push(piece);
    done
}

pub open spec fn is_absolute(p: Seq<char>) -> bool {
    p.len() > 0 && p[0] == '/'
}

/// `p` appended to `base` the way a path is pushed onto another: an
/// absolute `p` replaces `base`, and one separator stands between them.
pub open spec fn join(base: Seq<char>, p: Seq<char>) -> Seq<char> {
    if is_absolute(p) || base.len() == 0 {
        p
    } else if base.last() == '/' {
        base + p
    } else {
        base + seq!['/'] + p
    }
}

pub fn join_path(base: &str, p: &str) -> (r: String)
    ensures
        r@ == join(base@, p@),
{
    let pn = p.unicode_len();
    let bn = base.unicode_len();
    if (pn > 0 && p.get_char(0) == '/') || bn == 0 {
        return String::from_str(p);
    }
    let mut r = String::from_str(base);
    if base.get_char(bn - 1) != '/' {
        r.append("/");
        proof {
            reveal_strlit("/");
        }
    }
    r.append(p);
    r
}

/// `raw` begins with `~/`.
pub open spec fn is_home_relative(raw: Seq<char>) -> bool {
    raw.len() >= 2 && raw[0] == '~' && raw[1] == '/'
}

/// A path string as a module writes it, resolved against the directory
/// `base`: `~/` stands for the home directory (when one is known), a
/// relative path is joined onto `base`, an absolute one stays as it is.
pub open spec fn resolve(raw: Seq<char>, base: Seq<char>, home: Option<Seq<char>>) -> Seq<char> {
    if is_home_relative(raw) {
        match home {
            Some(h) => join(h, raw.subrange(2, raw.len() as int)),
            None => raw,
        }
    } else if !is_absolute(raw) {
        join(base, raw)
    } else {
        raw
    }
}

pub open spec fn opt_view(o: Option<String>) -> Option<Seq<char>> {
    match o {
        Some(s) => Some(s@),
        None => None,
    }
}

/// Resolves `from_path` against the directory `base_path`, with `home` the
/// user's home directory, if any. Nothing is looked up on disk.
pub fn resolve_path(from_path: &str, base_path: &str, home: &Option<String>) -> (r: String)
    ensures
        r@ == resolve(from_path@, base_path@, opt_view(*home)),
{
    let n = from_path.unicode_len();
    if n >= 2 && from_path.get_char(0) == '~' && from_path.get_char(1) == '/' {
        match home {
            Some(h) => join_path(h.as_str(), from_path.substring_char(2, n)),
            None => String::from_str(from_path),
        }
    } else if !(n > 0 && from_path.get_char(0) == '/') {
        join_path(base_path, from_path)
    } else {
        String::from_str(from_path)
    }
}

/// A piece of a path that names something: not empty and not `.`.
pub open spec fn is_kept(c: Seq<char>) -> bool {
    c.len() > 0 && c != seq!['.']
}

/// The components of a path: `/` first for an absolute path, then its
/// pieces with the empty ones and `.` left out.
pub open spec fn components(p: Seq<char>) -> Seq<Seq<char>> {
    let names = segments(p, '/').filter(|c: Seq<char>| is_kept(c));
    if is_absolute(p) {
        seq![seq!['/']] + names
    } else {
        names
    }
}

fn is_kept_str(c: &String) -> (r: bool)
    ensures
        r == is_kept(c@),
{
    let n = c.as_str().unicode_len();
    if n == 0 {
        return false;
    }
    if n == 1 && c.as_str().get_char(0) == '.' {
        assert(c@ =~= seq!['.']);
        return false;
    }
    true
}

pub fn path_components(p: &str) -> (r: Vec<String>)
    ensures
        strs(r@) == components(p@),
{
    let pieces = split_on(p, '/');
    let ghost names = segments(p@, '/');
    let mut r: Vec<String> = Vec::new();
    if p.unicode_len() > 0 && p.get_char(0) == '/' {
        let slash = "/";
        proof {
            reveal_strlit("/");
            assert(slash@ =~= seq!['/']);
        }
        r.push(String::from_str(slash));
        proof {
            assert(strs(r@) =~= seq![seq!['/']]);
        }
    }
    let ghost lead = strs(r@);
    let mut i: usize = 0;
    while i < pieces.len()
        invariant
            strs(pieces@) == names,
            i <= pieces.len(),
            strs(r@) == lead + names.subrange(0, i as int).filter(|c: Seq<char>| is_kept(c)),
        decreases pieces.len() - i,
    {
        proof {
            assert(names.subrange(0, i + 1).drop_last() =~= names.subrange(0, i as int));
            reveal(Seq::filter);
        }
        if is_kept_str(&pieces[i]) {
            let c = pieces[i].clone();
            proof {
                assert(strs(r@.push(c)) =~= strs(r@).push(c@));
            }
            r.push(c);
        }
        i = i + 1;
    }
    proof {
        assert(names.subrange(0, pieces.len() as int) =~= names);
        if !(p@.len() > 0 && p@[0] == '/') {
            assert(lead =~= Seq::<Seq<char>>::empty());
        }
    }
    r
}

/// `c` is the name of a file or directory: not the root and not `..`.
pub open spec fn is_name(c: Seq<char>) -> bool {
    c != seq!['/'] && c != seq!['.', '.']
}

/// `acc` with one more component: `..` takes back the last name before
/// it, stays at the root `/`, and is kept where there is no name to take
/// back (at the start of a relative path).
pub open spec fn norm_step(acc: Seq<Seq<char>>, c: Seq<char>) -> Seq<Seq<char>> {
    if c == seq!['.', '.'] {
        if acc.len() > 0 && is_name(acc.last()) {
            acc.drop_last()
        } else if acc.len() > 0 && acc.last() == seq!['/'] {
            acc
        } else {
            acc.push(c)
        }
    } else {
        acc.push(c)
    }
}

/// The components `s` added one by one, from the left, to `acc`.
pub open spec fn norm_onto(acc: Seq<Seq<char>>, s: Seq<Seq<char>>) -> Seq<Seq<char>>
    decreases s.len(),
{
    if s.len() == 0 {
        acc
    } else {
        norm_step(norm_onto(acc, s.drop_last()), s.last())
    }
}

/// The physical form of the components `s`: every `..` that follows a
/// name removes it.
pub open spec fn normalize(s: Seq<Seq<char>>) -> Seq<Seq<char>> {
    norm_onto(Seq::empty(), s)
}

/// Names joined with `/` between them.
pub open spec fn join_names(s: Seq<Seq<char>>) -> Seq<char>
    decreases s.len(),
{
    if s.len() == 0 {
        Seq::empty()
    } else if s.len() == 1 {
        s[0]
    } else {
        join_names(s.drop_last()) + seq!['/'] + s.last()
    }
}

/// The display form of `path` relative to the directory `root`: the
/// physical chain of directories from `root` down to the file, then the
/// file's name, joined with `/`. `None` when `path` names no file or its
/// directory does not lie under `root`.
pub open spec fn collapse(root: Seq<char>, path: Seq<char>) -> Option<Seq<char>> {
    let pc = components(path);
    if pc.len() > 0 && is_name(pc.last()) {
        let dirs = normalize(pc.drop_last());
        let rc = normalize(components(root));
        if rc.len() <= dirs.len() && dirs.subrange(0, rc.len() as int) == rc {
            Some(join_names(dirs.subrange(rc.len() as int, dirs.len() as int).push(pc.last())))
        } else {
            None
        }
    } else {
        None
    }
}

fn is_root_marker(c: &String) -> (r: bool)
    ensures
        r == (c@ == seq!['/']),
{
    let n = c.as_str().unicode_len();
    if n == 1 && c.as_str().get_char(0) == '/' {
        assert(c@ =~= seq!['/']);
        true
    } else {
        false
    }
}

fn is_dot_dot(c: &String) -> (r: bool)
    ensures
        r == (c@ == seq!['.', '.']),
{
    let n = c.as_str().unicode_len();
    if n == 2 && c.as_str().get_char(0) == '.' && c.as_str().get_char(1) == '.' {
        assert(c@ =~= seq!['.', '.']);
        true
    } else {
        false
    }
}

/// Whether the first `k` strings of `a` are exactly the strings of `b`.
fn prefix_equals(a: &Vec<String>, k: usize, b: &Vec<String>) -> (r: bool)
    requires
        k <= a@.len(),
    ensures
        r == (strs(a@).subrange(0, k as int) == strs(b@)),
{
    if k != b.len() {
        proof {
            assert(strs(a@).subrange(0, k as int).len() != strs(b@).len());
        }
        return false;
    }
    let mut i: usize = 0;
    while i < k
        invariant
            k == b@.len(),
            k <= a@.len(),
            i <= k,
            forall|j: int| 0 <= j < i ==> a@[j]@ == b@[j]@,
        decreases k - i,
    {
        if a[i] != b[i] {
            proof {
                assert(strs(a@).subrange(0, k as int)[i as int] != strs(b@)[i as int]);
            }
            return false;
        }
        i = i + 1;
    }
    proof {
        assert(strs(a@).subrange(0, k as int) =~= strs(b@));
    }
    true
}

/// The names `v[lo..hi]` joined with `/`.
pub fn join_range(v: &Vec<String>, lo: usize, hi: usize) -> (r: String)
    requires
        lo <= hi <= v@.len(),
    ensures
        r@ == join_names(strs(v@).subrange(lo as int, hi as int)),
{
    let mut r = String::new();
    let mut i: usize = lo;
    proof {
        assert(strs(v@).subrange(lo as int, lo as int) =~= Seq::<Seq<char>>::empty());
    }
    while i < hi
        invariant
            lo <= i <= hi <= v@.len(),
            r@ == join_names(strs(v@).subrange(lo as int, i as int)),
        decreases hi - i,
    {
        proof {
            reveal_strlit("/");
            assert(strs(v@).subrange(lo as int, i + 1).drop_last() =~= strs(v@).subrange(
                lo as int,
                i as int,
            ));
        }
        if i > lo {
            r.append("/");
        } else {
            proof {
                assert(r@ =~= Seq::<char>::empty());
            }
        }
        r.append(v[i].as_str());
        proof {
            if i == lo {
                assert(r@ =~= strs(v@).subrange(lo as int, i + 1)[0]);
            }
        }
        i = i + 1;
    }
    r
}

/// The names of `v` joined with `/`.
pub fn join_all(v: &Vec<String>) -> (r: String)
    ensures
        r@ == join_names(strs(v@)),
{
    let r = join_range(v, 0, v.len());
    proof {
        assert(strs(v@).subrange(0, v@.len() as int) =~= strs(v@));
    }
    r
}

/// The path that components `c` spell.
pub open spec fn text_of(c: Seq<Seq<char>>) -> Seq<char> {
    if c.len() > 0 && c[0] == seq!['/'] {
        seq!['/'] + join_names(c.drop_first())
    } else {
        join_names(c)
    }
}

/// The directory that holds the file `path`; `None` when `path` names no
/// file.
pub open spec fn parent(path: Seq<char>) -> Option<Seq<char>> {
    let pc = components(path);
    if pc.len() > 0 && is_name(pc.last()) {
        Some(text_of(pc.drop_last()))
    } else {
        None
    }
}

pub fn parent_dir(path: &str) -> (r: Option<String>)
    ensures
        opt_view(r) == parent(path@),
{
    let pc = path_components(path);
    let n = pc.len();
    if n == 0 || is_root_marker(&pc[n - 1]) || is_dot_dot(&pc[n - 1]) {
        return None;
    }
    let ghost d = strs(pc@).drop_last();
    if is_root_marker(&pc[0]) {
        let mut r = String::from_str("/");
        proof {
            reveal_strlit("/");
        }
        let rest = join_range(&pc, 1, n - 1);
        r.append(rest.as_str());
        proof {
            assert(strs(pc@).subrange(1, n - 1) =~= d.drop_first());
            assert(r@ =~= seq!['/'] + join_names(d.drop_first()));
        }
        Some(r)
    } else {
        let r = join_range(&pc, 0, n - 1);
        proof {
            assert(strs(pc@).subrange(0, n - 1) =~= d);
            if d.len() > 0 {
                assert(d[0] == strs(pc@)[0]);
            }
        }
        Some(r)
    }
}

/// The physical form of the first `hi` components of `c`.
fn normalize_components(c: &Vec<String>, hi: usize) -> (r: Vec<String>)
    requires
        hi <= c@.len(),
    ensures
        strs(r@) == normalize(strs(c@).subrange(0, hi as int)),
{
    let ghost cs = strs(c@);
    let mut r: Vec<String> = Vec::new();
    let mut i: usize = 0;
    proof {
        assert(strs(r@) =~= Seq::<Seq<char>>::empty());
        assert(cs.subrange(0, 0) =~= Seq::<Seq<char>>::empty());
    }
    while i < hi
        invariant
            cs == strs(c@),
            hi <= c@.len(),
            i <= hi,
            strs(r@) == normalize(cs.subrange(0, i as int)),
        decreases hi - i,
    {
        proof {
            assert(cs.subrange(0, i + 1).drop_last() =~= cs.subrange(0, i as int));
            assert(cs.subrange(0, i + 1).last() == cs[i as int]);
        }
        let n = r.len();
        if is_dot_dot(&c[i]) && n > 0 && !is_root_marker(&r[n - 1]) && !is_dot_dot(&r[n - 1]) {
            let ghost before = r@;
            r.pop();
            proof {
                assert(r@ == before.drop_last());
                assert(strs(r@) =~= strs(before).drop_last());
            }
        } else if is_dot_dot(&c[i]) && n > 0 && is_root_marker(&r[n - 1]) {
        } else {
            let x = c[i].clone();
            proof {
                assert(strs(r@.push(x)) =~= strs(r@).push(x@));
            }
            r.push(x);
        }
        i = i + 1;
    }
    r
}

/// The display form of `path` relative to `root_dir` (see `collapse`).
pub fn collapse_path(root_dir: &str, path: &str) -> (r: Option<String>)
    ensures
        opt_view(r) == collapse(root_dir@, path@),
{
    let pc = path_components(path);
    let rc0 = path_components(root_dir);
    let n = pc.len();
    if n == 0 || is_root_marker(&pc[n - 1]) || is_dot_dot(&pc[n - 1]) {
        return None;
    }
    let mut dirs = normalize_components(&pc, n - 1);
    let rc = normalize_components(&rc0, rc0.len());
    proof {
        assert(strs(pc@).subrange(0, n - 1) =~= strs(pc@).drop_last());
        assert(strs(rc0@).subrange(0, rc0@.len() as int) =~= strs(rc0@));
    }
    if rc.len() > dirs.len() || !prefix_equals(&dirs, rc.len(), &rc) {
        return None;
    }
    let ghost d0 = strs(dirs@);
    let file = pc[n - 1].clone();
    proof {
        assert(strs(dirs@.push(file)) =~= strs(dirs@).push(file@));
    }
    dirs.push(file);
    let r = join_range(&dirs, rc.len(), dirs.len());
    proof {
        assert(strs(dirs@).subrange(rc@.len() as int, dirs@.len() as int) =~= d0.subrange(
            rc@.len() as int,
            d0.len() as int,
        ).push(strs(pc@).last()));
    }
    Some(r)
}

/// The three classes of path strings: `~/rest` is the home directory
/// joined with `rest`, a relative path is joined onto the base directory,
/// and an absolute path is kept as it is.
pub proof fn lemma_resolve_classes(
    rest: Seq<char>,
    home: Seq<char>,
    rel: Seq<char>,
    abs: Seq<char>,
    base: Seq<char>,
    any_home: Option<Seq<char>>,
)
    requires
        home.len() > 0,
        home.last() != '/',
        !is_absolute(rest),
        rel.len() > 0,
        !is_absolute(rel),
        !is_home_relative(rel),
        base.len() > 0,
        base.last() != '/',
        is_absolute(abs),
    ensures
        resolve(seq!['~', '/'] + rest, base, Some(home)) == home + seq!['/'] + rest,
        resolve(rel, base, any_home) == base + seq!['/'] + rel,
        resolve(abs, base, any_home) == abs,
{
    let raw = seq!['~', '/'] + rest;
    assert(raw.subrange(2, raw.len() as int) =~= rest);
}

proof fn lemma_segments_concat(a: Seq<char>, b: Seq<char>, sep: char)
    ensures
        segments(a + seq![sep] + b, sep) == segments(a, sep) + segments(b, sep),
    decreases b.len(),
{
    lemma_segments_len(a, sep);
    if b.len() == 0 {
        assert((a + seq![sep] + b).drop_last() =~= a);
        assert(segments(a, sep).push(Seq::empty()) =~= segments(a, sep) + seq![Seq::<char>::empty()]);
    } else {
        let s = a + seq![sep] + b;
        assert(s.drop_last() =~= a + seq![sep] + b.drop_last());
        lemma_segments_concat(a, b.drop_last(), sep);
        lemma_segments_len(b.drop_last(), sep);
        let sa = segments(a, sep);
        let sb = segments(b.drop_last(), sep);
        if b.last() == sep {
            assert((sa + sb).push(Seq::empty()) =~= sa + sb.push(Seq::empty()));
        } else {
            let p = sa + sb;
            assert(p.update(p.len() - 1, p.last().push(b.last())) =~= sa + sb.update(
                sb.len() - 1,
                sb.last().push(b.last()),
            ));
        }
    }
}

proof fn lemma_absolute_prefix(a: Seq<char>, b: Seq<char>)
    requires
        a.len() > 0,
    ensures
        is_absolute(a + b) == is_absolute(a),
{
    assert((a + b)[0] == a[0]);
}

/// Joining a relative path onto a directory appends its components.
pub proof fn lemma_join_components(dir: Seq<char>, rel: Seq<char>)
    requires
        !is_absolute(rel),
    ensures
        components(join(dir, rel)) == components(dir) + components(rel),
{
    let keep = |c: Seq<char>| is_kept(c);
    broadcast use Seq::filter_distributes_over_add;

    if dir.len() == 0 {
        assert(segments(dir, '/') =~= seq![Seq::<char>::empty()]);
        reveal_with_fuel(Seq::filter, 2);
        assert(segments(dir, '/').filter(keep) =~= Seq::<Seq<char>>::empty());
        assert(components(dir) =~= Seq::<Seq<char>>::empty());
        assert(components(dir) + components(rel) =~= components(rel));
    } else if dir.last() == '/' {
        let a = dir.drop_last();
        assert(dir =~= a + seq!['/'] + Seq::<char>::empty());
        assert(dir + rel =~= a + seq!['/'] + rel);
        lemma_segments_concat(a, Seq::empty(), '/');
        lemma_segments_concat(a, rel, '/');
        assert(segments(Seq::<char>::empty(), '/') =~= seq![Seq::<char>::empty()]);
        reveal_with_fuel(Seq::filter, 2);
        assert(seq![Seq::<char>::empty()].filter(keep) =~= Seq::<Seq<char>>::empty());
        assert(segments(dir, '/').filter(keep) =~= segments(a, '/').filter(keep));
        lemma_absolute_prefix(dir, rel);
        if is_absolute(dir) {
            assert(components(dir + rel) =~= components(dir) + components(rel));
        } else {
            assert(components(dir + rel) =~= components(dir) + components(rel));
        }
    } else {
        lemma_segments_concat(dir, rel, '/');
        lemma_absolute_prefix(dir, seq!['/'] + rel);
        assert(dir + seq!['/'] + rel =~= dir + (seq!['/'] + rel));
        if is_absolute(dir) {
            assert(components(dir + seq!['/'] + rel) =~= components(dir) + components(rel));
        } else {
            assert(components(dir + seq!['/'] + rel) =~= components(dir) + components(rel));
        }
    }
}

/// A component that names a directory or file: not empty, not `.`, not
/// `..`, not the root.
pub open spec fn is_plain(c: Seq<char>) -> bool {
    is_kept(c) && is_name(c)
}

proof fn lemma_norm_concat(acc: Seq<Seq<char>>, x: Seq<Seq<char>>, y: Seq<Seq<char>>)
    ensures
        norm_onto(acc, x + y) == norm_onto(norm_onto(acc, x), y),
    decreases y.len(),
{
    if y.len() == 0 {
        assert(x + y =~= x);
    } else {
        assert((x + y).drop_last() =~= x + y.drop_last());
        assert((x + y).last() == y.last());
        lemma_norm_concat(acc, x, y.drop_last());
    }
}

proof fn lemma_norm_plain(acc: Seq<Seq<char>>, t: Seq<Seq<char>>)
    requires
        forall|i: int| 0 <= i < t.len() ==> is_plain(#[trigger] t[i]),
    ensures
        norm_onto(acc, t) == acc + t,
    decreases t.len(),
{
    if t.len() == 0 {
        assert(acc + t =~= acc);
    } else {
        assert(is_plain(t[t.len() - 1]));
        lemma_norm_plain(acc, t.drop_last());
        assert((acc + t.drop_last()).push(t.last()) =~= acc + t);
    }
}

/// `k` parent references.
pub open spec fn dots(k: nat) -> Seq<Seq<char>> {
    Seq::new(k, |i: int| seq!['.', '.'])
}

proof fn lemma_norm_dots(q: Seq<Seq<char>>, s: Seq<Seq<char>>, k: nat)
    requires
        forall|i: int| 0 <= i < s.len() ==> is_plain(#[trigger] s[i]),
        k <= s.len(),
    ensures
        norm_onto(q + s, dots(k)) == q + s.subrange(0, s.len() - k),
    decreases k,
{
    if k == 0 {
        assert(dots(0) =~= Seq::<Seq<char>>::empty());
        assert(s.subrange(0, s.len() as int) =~= s);
    } else {
        assert(dots(k).drop_last() =~= dots((k - 1) as nat));
        assert(dots(k).last() == seq!['.', '.']);
        lemma_norm_dots(q, s, (k - 1) as nat);
        let acc = q + s.subrange(0, s.len() - k + 1);
        assert(acc.last() == s[s.len() - k]);
        assert(is_plain(s[s.len() - k]));
        assert(acc.drop_last() =~= q + s.subrange(0, s.len() - k));
    }
}

/// Collapsing a path resolved from a directory below the root gives the
/// physical chain of directories from the root down to the file, then the
/// file's name: for `rel` made of `k` parent references and then plain
/// names `n`, resolved from the directory `root/sub` (with `k` at most the
/// depth of `sub`), the display path is `sub` less its last `k` names,
/// then `n`, joined with `/`.
pub proof fn lemma_collapse_resolved(
    root: Seq<char>,
    sub: Seq<Seq<char>>,
    dir: Seq<char>,
    rel: Seq<char>,
    home: Option<Seq<char>>,
    k: nat,
    n: Seq<Seq<char>>,
)
    requires
        components(dir) == components(root) + sub,
        forall|i: int| 0 <= i < sub.len() ==> is_plain(#[trigger] sub[i]),
        !is_absolute(rel),
        !is_home_relative(rel),
        components(rel) == dots(k) + n,
        n.len() > 0,
        forall|i: int| 0 <= i < n.len() ==> is_name(#[trigger] n[i]),
        k <= sub.len(),
    ensures
        collapse(root, resolve(rel, dir, home)) == Some(
            join_names(sub.subrange(0, sub.len() - k) + n),
        ),
{
    let rc = components(root);
    let cr = components(rel);
    lemma_join_components(dir, rel);
    let keep = |c: Seq<char>| is_kept(c);
    segments(rel, '/').filter_lemma(keep);
    assert forall|i: int| 0 <= i < n.len() implies is_plain(#[trigger] n[i]) by {
        assert(n[i] == cr[k + i]);
        assert(is_kept(cr[k + i]));
    }
    let pc = rc + sub + cr;
    assert(components(resolve(rel, dir, home)) == pc);
    let n1 = n.drop_last();
    assert forall|i: int| 0 <= i < n1.len() implies is_plain(#[trigger] n1[i]) by {
        assert(n1[i] == n[i]);
    }
    assert(pc.drop_last() =~= (rc + sub) + dots(k) + n1);
    assert(pc.last() == n.last());
    let e = Seq::<Seq<char>>::empty();
    let nr = normalize(rc);
    lemma_norm_concat(e, (rc + sub) + dots(k), n1);
    lemma_norm_concat(e, rc + sub, dots(k));
    lemma_norm_concat(e, rc, sub);
    lemma_norm_plain(nr, sub);
    lemma_norm_dots(nr, sub, k);
    let kept = sub.subrange(0, sub.len() - k);
    assert forall|i: int| 0 <= i < kept.len() implies is_plain(#[trigger] kept[i]) by {
        assert(kept[i] == sub[i]);
    }
    lemma_norm_plain(nr + kept, n1);
    let dirs = nr + kept + n1;
    assert(normalize(pc.drop_last()) == dirs);
    assert(dirs.subrange(0, nr.len() as int) =~= nr);
    assert(dirs.subrange(nr.len() as int, dirs.len() as int).push(n.last()) =~= kept + n);
}

} // verus!
