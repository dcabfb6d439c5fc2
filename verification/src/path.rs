//! Unix paths as the standard library reads them: components, parent and order.
//!
//! A path's components are its `/`-separated pieces, with empty pieces and `.`
//! pieces dropped; a leading `/` is the root component and a leading `.` piece of
//! a relative path stays as the current-dir component. Paths are ordered by
//! comparing components in turn: root, then `.`, then `..`, then names, names by
//! their characters.
use vstd::prelude::*;
use crate::text::{push_char, split_on};

verus! {

broadcast use vstd::string::group_string_axioms;

/// The root component, as the piece of text that stands for it.
pub open spec fn root_comp() -> Seq<char> {
    seq!['/']
}

pub open spec fn cur_comp() -> Seq<char> {
    seq!['.']
}

pub open spec fn up_comp() -> Seq<char> {
    seq!['.', '.']
}

/// The pieces of `parts` that name something: neither empty nor `.`.
pub open spec fn named_parts(parts: Seq<Seq<char>>) -> Seq<Seq<char>>
    decreases parts.len(),
{
    if parts.len() == 0 {
        Seq::<Seq<char>>::empty()
    } else {
        let p = named_parts(parts.drop_last());
        let l = parts.last();
        if l.len() == 0 || l == cur_comp() {
            p
        } else {
            p.push(l)
        }
    }
}

/// The components of path `s`.
pub open spec fn path_components(s: Seq<char>) -> Seq<Seq<char>> {
    let parts = split_on(s, '/');
    if s.len() > 0 && s[0] == '/' {
        seq![root_comp()] + named_parts(parts)
    } else if parts[0] == cur_comp() {
        seq![cur_comp()] + named_parts(parts)
    } else {
        named_parts(parts)
    }
}

/// The components of the parent of `s` (`Path::parent`), the root when `s` has
/// no parent.
pub open spec fn parent_key(s: Seq<char>) -> Seq<Seq<char>> {
    let c = path_components(s);
    if c.len() == 0 || c.last() == root_comp() {
        seq![root_comp()]
    } else {
        c.drop_last()
    }
}

/// How a path made of components `k` is displayed.
pub open spec fn render_key(k: Seq<Seq<char>>) -> Seq<char> {
    if k.len() > 0 && k[0] == root_comp() {
        seq!['/'] + crate::text::join(k.skip(1), seq!['/'])
    } else {
        crate::text::join(k, seq!['/'])
    }
}

/// Rank of a component kind: root, current dir, parent dir, name.
pub open spec fn comp_rank(c: Seq<char>) -> int {
    if c == root_comp() {
        0
    } else if c == cur_comp() {
        1
    } else if c == up_comp() {
        2
    } else {
        3
    }
}

/// Lexicographic order of character sequences: -1, 0 or 1.
pub open spec fn chars_order(a: Seq<char>, b: Seq<char>) -> int
    decreases a.len(),
{
    if a.len() == 0 {
        if b.len() == 0 {
            0
        } else {
            -1
        }
    } else if b.len() == 0 {
        1
    } else if (a[0] as u32) < (b[0] as u32) {
        -1
    } else if (a[0] as u32) > (b[0] as u32) {
        1
    } else {
        chars_order(a.skip(1), b.skip(1))
    }
}

/// Order of two components: by kind, names by their characters.
pub open spec fn comp_order(a: Seq<char>, b: Seq<char>) -> int {
    if comp_rank(a) < comp_rank(b) {
        -1
    } else if comp_rank(a) > comp_rank(b) {
        1
    } else if comp_rank(a) == 3 {
        chars_order(a, b)
    } else {
        0
    }
}

/// Order of two paths given by their components: -1, 0 or 1.
pub open spec fn key_order(a: Seq<Seq<char>>, b: Seq<Seq<char>>) -> int
    decreases a.len(),
{
    if a.len() == 0 {
        if b.len() == 0 {
            0
        } else {
            -1
        }
    } else if b.len() == 0 {
        1
    } else if comp_order(a[0], b[0]) != 0 {
        comp_order(a[0], b[0])
    } else {
        key_order(a.skip(1), b.skip(1))
    }
}

pub proof fn lemma_chars_order(a: Seq<char>, b: Seq<char>, c: Seq<char>)
    ensures
        chars_order(a, b) == -chars_order(b, a),
        -1 <= chars_order(a, b) <= 1,
        chars_order(a, b) == 0 <==> a == b,
        chars_order(a, b) < 0 && chars_order(b, c) < 0 ==> chars_order(a, c) < 0,
    decreases a.len(),
{
    if a.len() > 0 && b.len() > 0 {
        vstd::utf8::char_u32_cast(a[0], a[0] as u32);
        vstd::utf8::char_u32_cast(b[0], b[0] as u32);
        if c.len() > 0 {
            lemma_chars_order(a.skip(1), b.skip(1), c.skip(1));
        } else {
            lemma_chars_order(a.skip(1), b.skip(1), c);
        }
        if a[0] == b[0] {
            if a.skip(1) == b.skip(1) {
                assert(a =~= seq![a[0]] + a.skip(1));
                assert(b =~= seq![b[0]] + b.skip(1));
            }
        }
        if a == b {
            assert(a.skip(1) =~= b.skip(1));
        }
        if chars_order(a, b) < 0 && chars_order(b, c) < 0 && c.len() > 0 {
            if (a[0] as u32) == (b[0] as u32) && (b[0] as u32) == (c[0] as u32) {
                lemma_chars_order(a.skip(1), b.skip(1), c.skip(1));
            }
        }
    } else if a.len() == 0 && b.len() == 0 {
        assert(a =~= b);
    }
}

pub proof fn lemma_comp_order(a: Seq<char>, b: Seq<char>, c: Seq<char>)
    ensures
        comp_order(a, b) == -comp_order(b, a),
        -1 <= comp_order(a, b) <= 1,
        comp_order(a, b) == 0 <==> a == b,
        comp_order(a, b) < 0 && comp_order(b, c) < 0 ==> comp_order(a, c) < 0,
{
    lemma_chars_order(a, b, c);
    lemma_chars_order(b, a, c);
    lemma_chars_order(a, c, b);
}

pub proof fn lemma_key_order(a: Seq<Seq<char>>, b: Seq<Seq<char>>, c: Seq<Seq<char>>)
    ensures
        key_order(a, b) == -key_order(b, a),
        -1 <= key_order(a, b) <= 1,
        key_order(a, b) == 0 <==> a == b,
        key_order(a, b) < 0 && key_order(b, c) < 0 ==> key_order(a, c) < 0,
    decreases a.len(),
{
    if a.len() > 0 && b.len() > 0 {
        lemma_comp_order(a[0], b[0], if c.len() > 0 {
            c[0]
        } else {
            a[0]
        });
        lemma_comp_order(b[0], a[0], a[0]);
        if c.len() > 0 {
            lemma_comp_order(a[0], c[0], b[0]);
            lemma_comp_order(b[0], c[0], a[0]);
            lemma_key_order(a.skip(1), b.skip(1), c.skip(1));
        } else {
            lemma_key_order(a.skip(1), b.skip(1), c);
        }
        if comp_order(a[0], b[0]) == 0 && a.skip(1) == b.skip(1) {
            assert(a =~= seq![a[0]] + a.skip(1));
            assert(b =~= seq![b[0]] + b.skip(1));
        }
        if a == b {
            assert(a.skip(1) =~= b.skip(1));
        }
    } else if a.len() == 0 && b.len() == 0 {
        assert(a =~= b);
    }
}

/// Pieces of `v` between the separators `sep`, as `(start, end)` index pairs.
pub fn split_bounds(v: &[char], sep: char) -> (r: Vec<(usize, usize)>)
    ensures
        r@.map_values(|p: (usize, usize)| v@.subrange(p.0 as int, p.1 as int)) == split_on(v@, sep),
        forall|k: int| 0 <= k < r@.len() ==> (#[trigger] r@[k]).0 <= r@[k].1 <= v@.len(),
{
    let mut r: Vec<(usize, usize)> = Vec::new();
    let mut start: usize = 0;
    let mut i: usize = 0;
    assert(v@.take(0) =~= Seq::<char>::empty());
    assert(split_on(v@.take(0), sep) =~= seq![v@.subrange(0, 0)]);
    while i < v.len()
        invariant
            start <= i <= v@.len(),
            split_on(v@.take(i as int), sep) == r@.map_values(
                |p: (usize, usize)| v@.subrange(p.0 as int, p.1 as int),
            ).push(v@.subrange(start as int, i as int)),
            forall|k: int| 0 <= k < r@.len() ==> (#[trigger] r@[k]).0 <= r@[k].1 <= start,
        decreases v@.len() - i,
    {
        let ghost pre = v@.take(i as int);
        assert(v@.take(i + 1).drop_last() =~= pre);
        if v[i] == sep {
            r.push((start, i));
            start = i + 1;
        }
        i += 1;
        proof {
            let m = r@.map_values(|p: (usize, usize)| v@.subrange(p.0 as int, p.1 as int));
            assert(v@.subrange(start as int, i as int) =~= if v@[i - 1] == sep {
                Seq::<char>::empty()
            } else {
                v@.subrange(start as int, (i - 1) as int).push(v@[i - 1])
            });
            assert(split_on(v@.take(i as int), sep) =~= m.push(
                v@.subrange(start as int, i as int),
            ));
        }
    }
    assert(v@.take(v@.len() as int) =~= v@);
    r.push((start, v.len()));
    proof {
        let m = r@.map_values(|p: (usize, usize)| v@.subrange(p.0 as int, p.1 as int));
        assert(split_on(v@, sep) =~= m);
    }
    r
}

/// The text of the ranges `r` of `v`.
pub open spec fn pieces(v: Seq<char>, r: Seq<(usize, usize)>) -> Seq<Seq<char>> {
    r.map_values(|p: (usize, usize)| v.subrange(p.0 as int, p.1 as int))
}

/// Whether the ranges `r` lie within `v`.
pub open spec fn ranges_in(v: Seq<char>, r: Seq<(usize, usize)>) -> bool {
    forall|k: int| 0 <= k < r.len() ==> (#[trigger] r[k]).0 <= r[k].1 <= v.len()
}

fn is_dot(v: &[char], lo: usize, hi: usize) -> (r: bool)
    requires
        lo <= hi <= v@.len(),
    ensures
        r == (v@.subrange(lo as int, hi as int) == cur_comp()),
{
    let ghost s = v@.subrange(lo as int, hi as int);
    if hi - lo == 1 && v[lo] == '.' {
        assert(s =~= cur_comp());
        true
    } else {
        proof {
            if s == cur_comp() {
                assert(s.len() == 1);
                assert(s[0] == '.');
                assert(v@[lo as int] == '.');
            }
        }
        false
    }
}

fn is_dot_dot(v: &[char], lo: usize, hi: usize) -> (r: bool)
    requires
        lo <= hi <= v@.len(),
    ensures
        r == (v@.subrange(lo as int, hi as int) == up_comp()),
{
    let ghost s = v@.subrange(lo as int, hi as int);
    if hi - lo == 2 && v[lo] == '.' && v[lo + 1] == '.' {
        assert(s =~= up_comp());
        true
    } else {
        proof {
            if s == up_comp() {
                assert(s.len() == 2);
                assert(s[0] == '.' && s[1] == '.');
                assert(v@[lo as int] == '.' && v@[lo + 1] == '.');
            }
        }
        false
    }
}

fn is_root(v: &[char], lo: usize, hi: usize) -> (r: bool)
    requires
        lo <= hi <= v@.len(),
    ensures
        r == (v@.subrange(lo as int, hi as int) == root_comp()),
{
    let ghost s = v@.subrange(lo as int, hi as int);
    if hi - lo == 1 && v[lo] == '/' {
        assert(s =~= root_comp());
        true
    } else {
        proof {
            if s == root_comp() {
                assert(s.len() == 1);
                assert(s[0] == '/');
                assert(v@[lo as int] == '/');
            }
        }
        false
    }
}

/// The components of `v`, as ranges of `v` (the root is the range of the leading
/// `/`).
pub fn component_bounds(v: &[char]) -> (r: Vec<(usize, usize)>)
    ensures
        pieces(v@, r@) == path_components(v@),
        ranges_in(v@, r@),
{
    let parts = split_bounds(v, '/');
    let ghost ps = pieces(v@, parts@);
    proof {
        crate::text::lemma_split_on_nonempty(v@, '/');
    }
    let mut r: Vec<(usize, usize)> = Vec::new();
    let rooted = v.len() > 0 && v[0] == '/';
    if rooted {
        r.push((0, 1));
        assert(v@.subrange(0, 1) =~= root_comp());
        assert(pieces(v@, r@) =~= seq![root_comp()]);
    } else if is_dot(v, parts[0].0, parts[0].1) {
        r.push(parts[0]);
        assert(pieces(v@, r@) =~= seq![cur_comp()]);
    }
    let ghost lead = pieces(v@, r@);
    let mut k: usize = 0;
    assert(ps.take(0) =~= Seq::<Seq<char>>::empty());
    assert(lead + named_parts(ps.take(0)) =~= lead);
    while k < parts.len()
        invariant
            k <= parts@.len(),
            ps == pieces(v@, parts@),
            ranges_in(v@, parts@),
            ranges_in(v@, r@),
            pieces(v@, r@) == lead + named_parts(ps.take(k as int)),
        decreases parts@.len() - k,
    {
        let (lo, hi) = parts[k];
        assert(ps.take(k + 1).drop_last() =~= ps.take(k as int));
        assert(ps[k as int] == v@.subrange(lo as int, hi as int));
        let ghost before = pieces(v@, r@);
        if lo < hi && !is_dot(v, lo, hi) {
            r.push((lo, hi));
            assert(pieces(v@, r@) =~= before.push(v@.subrange(lo as int, hi as int)));
        }
        k += 1;
    }
    assert(ps.take(ps.len() as int) =~= ps);
    r
}

/// A path read as its components, for ordering and display.
pub struct PathKey {
    /// The characters of the text the components were read from.
    pub chars: Vec<char>,
    /// The components, as ranges of `chars`.
    pub parts: Vec<(usize, usize)>,
    /// The path is the root alone (used for a path without parent).
    pub root_only: bool,
}

impl PathKey {
    pub open spec fn wf(&self) -> bool {
        ranges_in(self.chars@, self.parts@)
    }

    pub open spec fn key(&self) -> Seq<Seq<char>> {
        if self.root_only {
            seq![root_comp()]
        } else {
            pieces(self.chars@, self.parts@)
        }
    }
}

/// The parent of `path`.
pub fn parent_of(path: &str) -> (r: PathKey)
    ensures
        r.wf(),
        r.key() == parent_key(path@),
{
    let chars = crate::text::chars_of(path);
    let mut parts = component_bounds(&chars);
    let n = parts.len();
    if n == 0 || is_root(&chars, parts[n - 1].0, parts[n - 1].1) {
        return PathKey { chars, parts: Vec::new(), root_only: true };
    }
    let ghost before = pieces(chars@, parts@);
    parts.pop();
    assert(pieces(chars@, parts@) =~= before.drop_last());
    PathKey { chars, parts, root_only: false }
}

/// What a drill-down summary files a path under: the file name of its parent
/// directory, or the root when that parent has no file name (the root itself, an
/// empty parent, or one ending in `.` or `..`).
pub open spec fn parent_name_key(s: Seq<char>) -> Seq<Seq<char>> {
    let p = parent_key(s);
    if p.len() > 0 && comp_rank(p.last()) == 3 {
        seq![p.last()]
    } else {
        seq![root_comp()]
    }
}

/// The file name of the parent of `path` (see `parent_name_key`).
pub fn parent_name_of(path: &str) -> (r: PathKey)
    ensures
        r.wf(),
        r.key() == parent_name_key(path@),
{
    let p = parent_of(path);
    let n = p.parts.len();
    if p.root_only || n == 0 {
        return PathKey { chars: p.chars, parts: Vec::new(), root_only: true };
    }
    let (lo, hi) = p.parts[n - 1];
    if rank_of(&p.chars, lo, hi) != 3 {
        return PathKey { chars: p.chars, parts: Vec::new(), root_only: true };
    }
    let parts = vec![(lo, hi)];
    let r = PathKey { chars: p.chars, parts, root_only: false };
    assert(r.key() =~= seq![p.key().last()]);
    r
}

/// The components of `path`.
pub fn components_of(path: &str) -> (r: PathKey)
    ensures
        r.wf(),
        !r.root_only,
        r.key() == path_components(path@),
{
    let chars = crate::text::chars_of(path);
    let parts = component_bounds(&chars);
    PathKey { chars, parts, root_only: false }
}

/// The rank of the component `v[lo..hi]`.
fn rank_of(v: &[char], lo: usize, hi: usize) -> (r: u8)
    requires
        lo <= hi <= v@.len(),
    ensures
        r == comp_rank(v@.subrange(lo as int, hi as int)),
{
    if is_root(v, lo, hi) {
        0
    } else if is_dot(v, lo, hi) {
        1
    } else if is_dot_dot(v, lo, hi) {
        2
    } else {
        3
    }
}

/// `chars_order` of `a[alo..ahi]` and `b[blo..bhi]`.
pub fn compare_chars(a: &[char], alo: usize, ahi: usize, b: &[char], blo: usize, bhi: usize) -> (r: i8)
    requires
        alo <= ahi <= a@.len(),
        blo <= bhi <= b@.len(),
    ensures
        r == chars_order(a@.subrange(alo as int, ahi as int), b@.subrange(blo as int, bhi as int)),
{
    let ghost x = a@.subrange(alo as int, ahi as int);
    let ghost y = b@.subrange(blo as int, bhi as int);
    let mut i: usize = 0;
    assert(x.skip(0) =~= x);
    assert(y.skip(0) =~= y);
    while alo + i < ahi && blo + i < bhi
        invariant
            alo <= ahi <= a@.len(),
            blo <= bhi <= b@.len(),
            x == a@.subrange(alo as int, ahi as int),
            y == b@.subrange(blo as int, bhi as int),
            alo + i <= ahi,
            blo + i <= bhi,
            chars_order(x, y) == chars_order(x.skip(i as int), y.skip(i as int)),
        decreases ahi - alo - i,
    {
        let c = a[alo + i];
        let d = b[blo + i];
        assert(x.skip(i as int)[0] == c);
        assert(y.skip(i as int)[0] == d);
        if (c as u32) < (d as u32) {
            return -1;
        }
        if (c as u32) > (d as u32) {
            return 1;
        }
        assert(x.skip(i as int).skip(1) =~= x.skip(i + 1));
        assert(y.skip(i as int).skip(1) =~= y.skip(i + 1));
        i += 1;
    }
    if alo + i == ahi {
        if blo + i == bhi {
            0
        } else {
            -1
        }
    } else {
        1
    }
}

fn compare_comps(a: &[char], alo: usize, ahi: usize, b: &[char], blo: usize, bhi: usize) -> (r: i8)
    requires
        alo <= ahi <= a@.len(),
        blo <= bhi <= b@.len(),
    ensures
        r == comp_order(a@.subrange(alo as int, ahi as int), b@.subrange(blo as int, bhi as int)),
{
    let ra = rank_of(a, alo, ahi);
    let rb = rank_of(b, blo, bhi);
    if ra < rb {
        -1
    } else if ra > rb {
        1
    } else if ra == 3 {
        compare_chars(a, alo, ahi, b, blo, bhi)
    } else {
        0
    }
}

/// The order of two parents: -1, 0 or 1 as `key_order`.
pub fn compare_keys(x: &PathKey, y: &PathKey) -> (r: i8)
    requires
        x.wf(),
        y.wf(),
    ensures
        r == key_order(x.key(), y.key()),
{
    let root = vec!['/'];
    let xa: &[char] = if x.root_only {
        root.as_slice()
    } else {
        x.chars.as_slice()
    };
    let ya: &[char] = if y.root_only {
        root.as_slice()
    } else {
        y.chars.as_slice()
    };
    let root_part = vec![(0usize, 1usize)];
    let xp: &Vec<(usize, usize)> = if x.root_only {
        &root_part
    } else {
        &x.parts
    };
    let yp: &Vec<(usize, usize)> = if y.root_only {
        &root_part
    } else {
        &y.parts
    };
    let ghost xk = x.key();
    let ghost yk = y.key();
    proof {
        assert(root@.subrange(0, 1) =~= root_comp());
        assert(pieces(root@, root_part@) =~= seq![root_comp()]);
    }
    assert(xk == pieces(xa@, xp@));
    assert(yk == pieces(ya@, yp@));
    assert(ranges_in(xa@, xp@));
    assert(ranges_in(ya@, yp@));
    let mut i: usize = 0;
    assert(xk.skip(0) =~= xk);
    assert(yk.skip(0) =~= yk);
    while i < xp.len() && i < yp.len()
        invariant
            xk == x.key(),
            yk == y.key(),
            xk == pieces(xa@, xp@),
            yk == pieces(ya@, yp@),
            ranges_in(xa@, xp@),
            ranges_in(ya@, yp@),
            i <= xp@.len(),
            i <= yp@.len(),
            key_order(xk, yk) == key_order(xk.skip(i as int), yk.skip(i as int)),
        decreases xp@.len() - i,
    {
        let (alo, ahi) = xp[i];
        let (blo, bhi) = yp[i];
        assert(xk.skip(i as int)[0] == xa@.subrange(alo as int, ahi as int));
        assert(yk.skip(i as int)[0] == ya@.subrange(blo as int, bhi as int));
        let c = compare_comps(xa, alo, ahi, ya, blo, bhi);
        assert(xk.skip(i as int).len() > 0 && yk.skip(i as int).len() > 0);
        if c != 0 {
            assert(key_order(xk.skip(i as int), yk.skip(i as int)) == c);
            return c;
        }
        assert(xk.skip(i as int).skip(1) =~= xk.skip(i + 1));
        assert(yk.skip(i as int).skip(1) =~= yk.skip(i + 1));
        i += 1;
    }
    if i == xp.len() {
        if i == yp.len() {
            0
        } else {
            -1
        }
    } else {
        1
    }
}

/// The display form of a parent.
pub fn render_parent(x: &PathKey) -> (s: String)
    requires
        x.wf(),
    ensures
        s@ == render_key(x.key()),
{
    let mut s = String::new();
    if x.root_only {
        push_char(&mut s, '/');
        assert(seq![root_comp()].skip(1) =~= Seq::<Seq<char>>::empty());
        assert(s@ =~= render_key(x.key()));
        return s;
    }
    let ghost k = x.key();
    let n = x.parts.len();
    let mut start: usize = 0;
    if n > 0 && is_root(&x.chars, x.parts[0].0, x.parts[0].1) {
        push_char(&mut s, '/');
        start = 1;
    }
    let ghost body = k.skip(start as int);
    let ghost lead = s@;
    let mut i: usize = start;
    assert(body.take(0) =~= Seq::<Seq<char>>::empty());
    while i < n
        invariant
            start <= i <= n,
            n == x.parts@.len(),
            ranges_in(x.chars@, x.parts@),
            k == pieces(x.chars@, x.parts@),
            body == k.skip(start as int),
            s@ == lead + crate::text::join(body.take(i - start), seq!['/']),
        decreases n - i,
    {
        if i > start {
            push_char(&mut s, '/');
        }
        let (lo, hi) = x.parts[i];
        crate::text::append_chars(&mut s, &x.chars, lo, hi);
        proof {
            let t = body.take(i - start + 1);
            assert(t.drop_last() =~= body.take(i - start));
            assert(t.last() == x.chars@.subrange(lo as int, hi as int));
            if i == start {
                assert(crate::text::join(body.take(0), seq!['/']) =~= Seq::<char>::empty());
            }
        }
        i += 1;
        assert(s@ =~= lead + crate::text::join(body.take(i - start), seq!['/']));
    }
    assert(body.take(n - start) =~= body);
    proof {
        if start == 1 {
            assert(k[0] == root_comp());
            assert(lead =~= seq!['/']);
        } else {
            assert(body =~= k);
            assert(lead =~= Seq::<char>::empty());
        }
    }
    assert(s@ =~= render_key(k));
    s
}

/// The last component of `p` when it is a name (`Path::file_name`).
pub open spec fn file_name(p: Seq<char>) -> Option<Seq<char>> {
    let c = path_components(p);
    if c.len() > 0 && comp_rank(c.last()) == 3 {
        Some(c.last())
    } else {
        None
    }
}

/// Position of the last `c` in `s`.
pub open spec fn last_index_of(s: Seq<char>, c: char) -> Option<int>
    decreases s.len(),
{
    if s.len() == 0 {
        None
    } else if s.last() == c {
        Some(s.len() - 1)
    } else {
        last_index_of(s.drop_last(), c)
    }
}

/// What follows the last `.` of the file name, unless the name has no `.` or only
/// a leading one (`Path::extension`).
pub open spec fn extension(p: Seq<char>) -> Option<Seq<char>> {
    match file_name(p) {
        None => None,
        Some(n) => match last_index_of(n, '.') {
            None => None,
            Some(d) => if d == 0 {
                None
            } else {
                Some(n.skip(d + 1))
            },
        },
    }
}

/// The file name of `path`, if its last component is a name.
pub fn file_name_of(path: &str) -> (r: Option<String>)
    ensures
        r matches Some(s) ==> file_name(path@) == Some(s@),
        r is None ==> file_name(path@) is None,
{
    let k = components_of(path);
    let n = k.parts.len();
    if n == 0 {
        return None;
    }
    let (lo, hi) = k.parts[n - 1];
    assert(pieces(k.chars@, k.parts@).last() == k.chars@.subrange(lo as int, hi as int));
    if rank_of(&k.chars, lo, hi) != 3 {
        return None;
    }
    Some(crate::text::string_of(&k.chars, lo, hi))
}

/// The extension of `path` (see `extension`).
pub fn extension_of(path: &str) -> (r: Option<String>)
    ensures
        r matches Some(s) ==> extension(path@) == Some(s@),
        r is None ==> extension(path@) is None,
{
    let name = match file_name_of(path) {
        None => {
            return None;
        },
        Some(n) => n,
    };
    let v = crate::text::chars_of(name.as_str());
    let mut j: usize = v.len();
    assert(v@.take(v@.len() as int) =~= v@);
    while j > 0 && v[j - 1] != '.'
        invariant
            j <= v@.len(),
            last_index_of(v@, '.') == last_index_of(v@.take(j as int), '.'),
        decreases j,
    {
        assert(v@.take(j as int).drop_last() =~= v@.take(j - 1));
        j -= 1;
    }
    proof {
        assert(v@.take(v@.len() as int) =~= v@);
    }
    if j == 0 {
        assert(v@.take(0) =~= Seq::<char>::empty());
        return None;
    }
    assert(v@.take(j as int).last() == '.');
    if j == 1 {
        return None;
    }
    let e = crate::text::string_of(&v, j, v.len());
    assert(e@ =~= v@.skip(j as int));
    Some(e)
}

/// The file name without its extension (`Path::file_stem`).
pub open spec fn file_stem(p: Seq<char>) -> Option<Seq<char>> {
    match file_name(p) {
        None => None,
        Some(n) => match last_index_of(n, '.') {
            None => Some(n),
            Some(d) => if d == 0 {
                Some(n)
            } else {
                Some(n.take(d))
            },
        },
    }
}

/// The file stem of `path` (see `file_stem`).
pub fn file_stem_of(path: &str) -> (r: Option<String>)
    ensures
        r matches Some(s) ==> file_stem(path@) == Some(s@),
        r is None ==> file_stem(path@) is None,
{
    let name = match file_name_of(path) {
        None => {
            return None;
        },
        Some(n) => n,
    };
    let v = crate::text::chars_of(name.as_str());
    let mut j: usize = v.len();
    assert(v@.take(v@.len() as int) =~= v@);
    while j > 0 && v[j - 1] != '.'
        invariant
            j <= v@.len(),
            last_index_of(v@, '.') == last_index_of(v@.take(j as int), '.'),
        decreases j,
    {
        assert(v@.take(j as int).drop_last() =~= v@.take(j - 1));
        j -= 1;
    }
    if j == 0 {
        assert(v@.take(0) =~= Seq::<char>::empty());
        return Some(name);
    }
    assert(v@.take(j as int).last() == '.');
    if j == 1 {
        return Some(name);
    }
    let stem = crate::text::string_of(&v, 0, j - 1);
    assert(stem@ =~= v@.take(j - 1));
    Some(stem)
}

} // verus!
