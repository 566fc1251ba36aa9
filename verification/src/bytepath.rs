//! Byte-level paths: `/`-separated byte strings, the way Unix hosts and ZIP
//! entry names spell them.

use vstd::prelude::*;

verus! {

/// The component separator `/`.
pub const SEP: u8 = 0x2f;

/// The parts of `s` between separators, empty parts included:
/// `a//b/` has the parts `a`, ``, `b`, ``; the empty string has one empty part.
pub open spec fn split_parts(s: Seq<u8>) -> Seq<Seq<u8>>
    decreases s.len(),
{
    if s.len() == 0 {
        seq![Seq::<u8>::empty()]
    } else {
        let init = split_parts(s.drop_last());
        if s.last() == SEP {
            init.push(Seq::<u8>::empty())
        } else {
            init.update(init.len() - 1, init.last().push(s.last()))
        }
    }
}

/// Views each byte vector of `v` as a byte sequence.
pub open spec fn byte_seqs(v: Seq<Vec<u8>>) -> Seq<Seq<u8>> {
    v.map_values(|b: Vec<u8>| b@)
}

/// There is always at least one part.
pub proof fn lemma_split_parts_len(s: Seq<u8>)
    ensures
        split_parts(s).len() >= 1,
    decreases s.len(),
{
    if s.len() > 0 {
        lemma_split_parts_len(s.drop_last());
    }
}

/// A byte string without separators is its own single part.
pub proof fn lemma_split_single(s: Seq<u8>)
    requires
        !s.contains(SEP),
    ensures
        split_parts(s) == seq![s],
    decreases s.len(),
{
    if s.len() > 0 {
        let t = s.drop_last();
        assert(!t.contains(SEP)) by {
            if t.contains(SEP) {
                let k = choose|k: int| 0 <= k < t.len() && t[k] == SEP;
                assert(s[k] == SEP);
            }
        }
        lemma_split_single(t);
        assert(s[s.len() - 1] != SEP);
        assert(t.push(s.last()) =~= s);
    } else {
        assert(s =~= Seq::<u8>::empty());
    }
}

/// Joining `a` and a separator-free `b` with one separator adds `b` as one
/// more part.
pub proof fn lemma_split_join(a: Seq<u8>, b: Seq<u8>)
    requires
        !b.contains(SEP),
    ensures
        split_parts(a + seq![SEP] + b) == split_parts(a).push(b),
    decreases b.len(),
{
    let s = a + seq![SEP] + b;
    if b.len() == 0 {
        assert(s.drop_last() =~= a);
        assert(b =~= Seq::<u8>::empty());
    } else {
        let b0 = b.drop_last();
        assert(!b0.contains(SEP)) by {
            if b0.contains(SEP) {
                let k = choose|k: int| 0 <= k < b0.len() && b0[k] == SEP;
                assert(b[k] == SEP);
            }
        }
        lemma_split_join(a, b0);
        assert(s.drop_last() =~= a + seq![SEP] + b0);
        assert(b[b.len() - 1] != SEP);
        assert(s.last() == b.last());
        assert(b0.push(b.last()) =~= b);
        assert(split_parts(s) =~= split_parts(a).push(b));
    }
}

/// Joining `a` and `b` with one separator gives `a`'s parts, then `b`'s.
pub proof fn lemma_split_concat(a: Seq<u8>, b: Seq<u8>)
    ensures
        split_parts(a + seq![SEP] + b) == split_parts(a) + split_parts(b),
    decreases b.len(),
{
    let s = a + seq![SEP] + b;
    lemma_split_parts_len(a);
    if b.len() == 0 {
        assert(s.drop_last() =~= a);
        assert(b =~= Seq::<u8>::empty());
        assert(split_parts(s) =~= split_parts(a) + split_parts(b));
    } else {
        let b0 = b.drop_last();
        lemma_split_concat(a, b0);
        lemma_split_parts_len(b0);
        assert(s.drop_last() =~= a + seq![SEP] + b0);
        assert(s.last() == b.last());
        assert(split_parts(s) =~= split_parts(a) + split_parts(b));
    }
}

/// A path whose last part is not empty does not end with a separator.
pub proof fn lemma_split_last(s: Seq<u8>)
    ensures
        split_parts(s).last().len() > 0 ==> s.len() > 0 && s.last() != SEP,
{
    if s.len() > 0 {
        lemma_split_parts_len(s.drop_last());
    }
}

/// The pieces of `s` between occurrences of the byte `sep`, empty pieces
/// included.
pub open spec fn split_on(s: Seq<u8>, sep: u8) -> Seq<Seq<u8>>
    decreases s.len(),
{
    if s.len() == 0 {
        seq![Seq::<u8>::empty()]
    } else {
        let init = split_on(s.drop_last(), sep);
        if s.last() == sep {
            init.push(Seq::<u8>::empty())
        } else {
            init.update(init.len() - 1, init.last().push(s.last()))
        }
    }
}

/// Splits `s` at every occurrence of `sep`, keeping empty pieces.
pub fn split_on_exec(s: &[u8], sep: u8) -> (pieces: Vec<Vec<u8>>)
    ensures
        byte_seqs(pieces@) == split_on(s@, sep),
{
    let mut pieces: Vec<Vec<u8>> = Vec::new();
    let mut current: Vec<u8> = Vec::new();
    let mut j: usize = 0;
    assert(s@.subrange(0, 0) =~= Seq::<u8>::empty());
    assert(byte_seqs(pieces@).push(current@) =~= seq![Seq::<u8>::empty()]);
    while j < s.len()
        invariant
            j <= s.len(),
            split_on(s@.subrange(0, j as int), sep) == byte_seqs(pieces@).push(current@),
        decreases s.len() - j,
    {
        let ghost before = s@.subrange(0, j as int);
        let ghost next = s@.subrange(0, j + 1);
        assert(next.drop_last() =~= before);
        assert(next.last() == s@[j as int]);
        if s[j] == sep {
            let ghost old_pieces = pieces@;
            pieces.push(current);
            current = Vec::new();
            assert(byte_seqs(pieces@) =~= byte_seqs(old_pieces).push(byte_seqs(pieces@).last()));
            assert(byte_seqs(pieces@).push(current@) =~= split_on(before, sep).push(
                Seq::<u8>::empty(),
            ));
        } else {
            let ghost old_current = current@;
            current.push(s[j]);
            assert(byte_seqs(pieces@).push(current@) =~= split_on(before, sep).update(
                split_on(before, sep).len() - 1,
                old_current.push(s@[j as int]),
            ));
        }
        j = j + 1;
    }
    assert(s@.subrange(0, s.len() as int) =~= s@);
    let ghost old_pieces = pieces@;
    pieces.push(current);
    assert(byte_seqs(pieces@) =~= byte_seqs(old_pieces).push(byte_seqs(pieces@).last()));
    pieces
}

/// Splits `s` at every separator, keeping empty parts.
pub fn split_parts_exec(s: &[u8]) -> (parts: Vec<Vec<u8>>)
    ensures
        byte_seqs(parts@) == split_parts(s@),
{
    let mut parts: Vec<Vec<u8>> = Vec::new();
    let mut current: Vec<u8> = Vec::new();
    let mut j: usize = 0;
    assert(s@.subrange(0, 0) =~= Seq::<u8>::empty());
    assert(byte_seqs(parts@).push(current@) =~= seq![Seq::<u8>::empty()]);
    while j < s.len()
        invariant
            j <= s.len(),
            split_parts(s@.subrange(0, j as int)) == byte_seqs(parts@).push(current@),
        decreases s.len() - j,
    {
        let ghost before = s@.subrange(0, j as int);
        let ghost next = s@.subrange(0, j + 1);
        assert(next.drop_last() =~= before);
        assert(next.last() == s@[j as int]);
        if s[j] == SEP {
            let ghost old_parts = parts@;
            parts.push(current);
            current = Vec::new();
            assert(byte_seqs(parts@) =~= byte_seqs(old_parts).push(byte_seqs(parts@).last()));
            assert(byte_seqs(parts@).push(current@) =~= split_parts(before).push(
                Seq::<u8>::empty(),
            ));
        } else {
            let ghost old_current = current@;
            current.push(s[j]);
            assert(byte_seqs(parts@).push(current@) =~= split_parts(before).update(
                split_parts(before).len() - 1,
                old_current.push(s@[j as int]),
            ));
        }
        j = j + 1;
    }
    assert(s@.subrange(0, s.len() as int) =~= s@);
    let ghost old_parts = parts@;
    parts.push(current);
    assert(byte_seqs(parts@) =~= byte_seqs(old_parts).push(byte_seqs(parts@).last()));
    parts
}


/// The byte `.`.
pub const DOT: u8 = 0x2e;

/// `..`, the parent-directory component.
pub open spec fn dot_dot() -> Seq<u8> {
    seq![DOT, DOT]
}

/// A part that carries no component: empty (from `//` or a trailing `/`) or `.`.
pub open spec fn is_trivial_part(p: Seq<u8>) -> bool {
    p.len() == 0 || p == seq![DOT]
}

/// The non-trivial parts, in order.
pub open spec fn keep_nontrivial(parts: Seq<Seq<u8>>) -> Seq<Seq<u8>>
    decreases parts.len(),
{
    if parts.len() == 0 {
        Seq::<Seq<u8>>::empty()
    } else {
        let init = keep_nontrivial(parts.drop_last());
        if is_trivial_part(parts.last()) {
            init
        } else {
            init.push(parts.last())
        }
    }
}

/// The path starts at the root directory.
pub open spec fn has_root(s: Seq<u8>) -> bool {
    s.len() > 0 && s[0] == SEP
}

/// A relative path that starts with the current directory: `.` or `./...`.
pub open spec fn starts_with_cur_dir(s: Seq<u8>) -> bool {
    !has_root(s) && split_parts(s)[0] == seq![DOT]
}

/// The normal and parent-directory components of a path.
pub open spec fn path_body(s: Seq<u8>) -> Seq<Seq<u8>> {
    keep_nontrivial(split_parts(s))
}

/// The leading component a path has before its body: `/` for the root
/// directory, `.` for a leading current directory, or none.
pub open spec fn path_start(s: Seq<u8>) -> Seq<Seq<u8>> {
    if has_root(s) {
        seq![seq![SEP]]
    } else if starts_with_cur_dir(s) {
        seq![seq![DOT]]
    } else {
        Seq::<Seq<u8>>::empty()
    }
}

/// The components of a path as the host sees them: its start (see
/// [`path_start`]), then its body. A body part never is `/` or `.`, so the
/// encoding is unambiguous.
pub open spec fn components(s: Seq<u8>) -> Seq<Seq<u8>> {
    path_start(s) + path_body(s)
}

/// `base`'s components are a prefix of `p`'s.
pub open spec fn path_starts_with(p: Seq<u8>, base: Seq<u8>) -> bool {
    components(base).len() <= components(p).len() && components(p).subrange(
        0,
        components(base).len() as int,
    ) == components(base)
}

/// The final component when it is a normal name.
pub open spec fn file_name(s: Seq<u8>) -> Option<Seq<u8>> {
    let body = path_body(s);
    if body.len() > 0 && body.last() != dot_dot() {
        Some(body.last())
    } else {
        None
    }
}

/// The index of the last non-trivial part before index `before`, or -1.
pub open spec fn last_nontrivial_before(parts: Seq<Seq<u8>>, before: int) -> int
    decreases before,
{
    if before <= 0 {
        -1
    } else if !is_trivial_part(parts[before - 1]) {
        before - 1
    } else {
        last_nontrivial_before(parts, before - 1)
    }
}

/// The byte offset at which part `j` starts.
pub open spec fn part_start(parts: Seq<Seq<u8>>, j: int) -> int
    decreases j,
{
    if j <= 0 {
        0
    } else {
        part_start(parts, j - 1) + parts[j - 1].len() + 1
    }
}

/// The length of the parent path's bytes, when there is a parent: the bytes
/// up to the end of the component before the last one, or up to the root
/// `/` or the leading `.`.
pub open spec fn parent_len(s: Seq<u8>) -> Option<int> {
    let parts = split_parts(s);
    let k = last_nontrivial_before(parts, parts.len() as int);
    if k >= 0 {
        let j = last_nontrivial_before(parts, k);
        if j >= 0 {
            Some(part_start(parts, j) + parts[j].len())
        } else if has_root(s) || starts_with_cur_dir(s) {
            Some(1)
        } else {
            Some(0)
        }
    } else if starts_with_cur_dir(s) {
        Some(0)
    } else {
        None
    }
}

/// The parent path: the path without its final component, or `None` for the
/// root directory and the empty path.
pub open spec fn parent(s: Seq<u8>) -> Option<Seq<u8>> {
    match parent_len(s) {
        Some(n) => Some(s.subrange(0, n)),
        None => None,
    }
}

/// Appends a relative `name` to `base`, adding a separator unless `base` is
/// empty or already ends with one.
pub open spec fn push_name(base: Seq<u8>, name: Seq<u8>) -> Seq<u8> {
    if base.len() > 0 && base.last() != SEP {
        base + seq![SEP] + name
    } else {
        base + name
    }
}

/// Replaces the final normal component with `name`, or appends `name` when
/// there is none.
pub open spec fn with_file_name(s: Seq<u8>, name: Seq<u8>) -> Seq<u8> {
    if file_name(s) is Some {
        push_name(s.subrange(0, parent_len(s)->0), name)
    } else {
        push_name(s, name)
    }
}

proof fn lemma_part_start_agree(p: Seq<Seq<u8>>, q: Seq<Seq<u8>>, j: int)
    requires
        0 <= j,
        j <= p.len(),
        j <= q.len(),
        forall|i: int| 0 <= i < j ==> p[i].len() == q[i].len(),
    ensures
        part_start(p, j) == part_start(q, j),
    decreases j,
{
    if j > 0 {
        lemma_part_start_agree(p, q, j - 1);
    }
}

/// The parts tile the path: each ends within it, the last at its end.
pub proof fn lemma_part_bounds(s: Seq<u8>)
    ensures
        split_parts(s).len() >= 1,
        forall|j: int|
            0 <= j < split_parts(s).len() ==> 0 <= #[trigger] part_start(split_parts(s), j)
                && part_start(split_parts(s), j) + split_parts(s)[j].len() <= s.len(),
        part_start(split_parts(s), split_parts(s).len() - 1) + split_parts(s).last().len()
            == s.len(),
    decreases s.len(),
{
    lemma_split_parts_len(s);
    if s.len() > 0 {
        let t = s.drop_last();
        lemma_part_bounds(t);
        lemma_split_parts_len(t);
        let q = split_parts(t);
        let p = split_parts(s);
        let n = q.len();
        assert forall|j: int| 0 <= j < p.len() implies 0 <= #[trigger] part_start(p, j)
            && part_start(p, j) + p[j].len() <= s.len() by {
            if j < n - 1 {
                lemma_part_start_agree(p, q, j);
                assert(part_start(q, j) + q[j].len() <= t.len());
            } else if j == n - 1 {
                lemma_part_start_agree(p, q, j);
            } else {
                lemma_part_start_agree(p, q, n - 1);
            }
        }
        if s.last() == SEP {
            lemma_part_start_agree(p, q, n - 1);
        } else {
            lemma_part_start_agree(p, q, n - 1);
        }
    }
}

proof fn lemma_keep_nontrivial_bounded(parts: Seq<Seq<u8>>, m: int)
    requires
        forall|j: int| 0 <= j < parts.len() ==> (#[trigger] parts[j]).len() <= m,
    ensures
        forall|i: int|
            0 <= i < keep_nontrivial(parts).len() ==> (#[trigger] keep_nontrivial(parts)[i]).len()
                <= m,
    decreases parts.len(),
{
    if parts.len() > 0 {
        let init = parts.drop_last();
        assert forall|j: int| 0 <= j < init.len() implies (#[trigger] init[j]).len() <= m by {
            assert(init[j] == parts[j]);
        }
        lemma_keep_nontrivial_bounded(init, m);
        assert(parts[parts.len() - 1].len() <= m);
        assert forall|i: int|
            0 <= i < keep_nontrivial(parts).len() implies (#[trigger] keep_nontrivial(
            parts,
        )[i]).len() <= m by {
            if i < keep_nontrivial(init).len() {
                assert(keep_nontrivial(parts)[i] == keep_nontrivial(init)[i]);
            }
        }
    }
}

/// No component is longer than the path.
pub proof fn lemma_body_part_len(s: Seq<u8>)
    ensures
        forall|i: int|
            0 <= i < path_body(s).len() ==> (#[trigger] path_body(s)[i]).len() <= s.len(),
{
    lemma_part_bounds(s);
    let ps = split_parts(s);
    assert forall|j: int| 0 <= j < ps.len() implies (#[trigger] ps[j]).len() <= s.len() by {
        assert(0 <= part_start(ps, j));
    }
    lemma_keep_nontrivial_bounded(ps, s.len() as int);
}

proof fn lemma_last_nontrivial_agree(p: Seq<Seq<u8>>, q: Seq<Seq<u8>>, b: int)
    requires
        b <= p.len(),
        b <= q.len(),
        forall|i: int| 0 <= i < b ==> p[i] == q[i],
    ensures
        last_nontrivial_before(p, b) == last_nontrivial_before(q, b),
    decreases b,
{
    if b > 0 {
        lemma_last_nontrivial_agree(p, q, b - 1);
    }
}

proof fn lemma_last_nontrivial_bounds(p: Seq<Seq<u8>>, b: int)
    requires
        b <= p.len(),
    ensures
        -1 <= last_nontrivial_before(p, b) < b || (b <= 0 && last_nontrivial_before(p, b) == -1),
        last_nontrivial_before(p, b) >= 0 ==> !is_trivial_part(p[last_nontrivial_before(p, b)]),
    decreases b,
{
    if b > 0 {
        lemma_last_nontrivial_bounds(p, b - 1);
    }
}

/// The last body component is the last non-trivial part.
proof fn lemma_body_last(parts: Seq<Seq<u8>>)
    ensures
        (keep_nontrivial(parts).len() > 0) == (last_nontrivial_before(parts, parts.len() as int)
            >= 0),
        keep_nontrivial(parts).len() > 0 ==> keep_nontrivial(parts).last() == parts[
            last_nontrivial_before(parts, parts.len() as int)],
    decreases parts.len(),
{
    if parts.len() > 0 {
        let init = parts.drop_last();
        lemma_body_last(init);
        lemma_last_nontrivial_agree(parts, init, init.len() as int);
        lemma_last_nontrivial_bounds(init, init.len() as int);
        let k = last_nontrivial_before(init, init.len() as int);
        if k >= 0 {
            assert(init[k] == parts[k]);
        }
    }
}

proof fn lemma_part_start_monotone(p: Seq<Seq<u8>>, i: int, j: int)
    requires
        0 <= i <= j,
    ensures
        part_start(p, i) <= part_start(p, j),
    decreases j,
{
    if i < j {
        lemma_part_start_monotone(p, i, j - 1);
    }
}

/// A path that starts with `/` has an empty first part.
proof fn lemma_rooted_first_part(s: Seq<u8>)
    requires
        s.len() >= 1,
        s[0] == SEP,
    ensures
        split_parts(s).len() >= 2,
        split_parts(s)[0].len() == 0,
    decreases s.len(),
{
    assert(s.last() == s[s.len() - 1]);
    if s.len() == 1 {
        assert(s.drop_last() =~= Seq::<u8>::empty());
        assert(split_parts(s.drop_last()) == seq![Seq::<u8>::empty()]);
        assert(split_parts(s) =~= seq![Seq::<u8>::empty(), Seq::<u8>::empty()]);
    } else {
        let t = s.drop_last();
        assert(t[0] == s[0]);
        lemma_rooted_first_part(t);
    }
}

/// The parent's bytes and the file name fit in the path side by side.
pub proof fn lemma_parent_and_name_fit(s: Seq<u8>)
    ensures
        file_name(s) is Some ==> parent_len(s) is Some && 0 <= parent_len(s)->0 && parent_len(
            s,
        )->0 + file_name(s)->0.len() <= s.len(),
{
    let ps = split_parts(s);
    let n = ps.len() as int;
    lemma_part_bounds(s);
    lemma_body_last(ps);
    if file_name(s) is Some {
        let k = last_nontrivial_before(ps, n);
        lemma_last_nontrivial_bounds(ps, n);
        lemma_last_nontrivial_bounds(ps, k);
        assert(0 <= part_start(ps, k) && part_start(ps, k) + ps[k].len() <= s.len());
        let j = last_nontrivial_before(ps, k);
        if j >= 0 {
            lemma_part_start_monotone(ps, j + 1, k);
            assert(part_start(ps, j + 1) == part_start(ps, j) + ps[j].len() + 1);
            assert(0 <= part_start(ps, j));
        } else if has_root(s) || starts_with_cur_dir(s) {
            if has_root(s) {
                lemma_rooted_first_part(s);
            }
            assert(is_trivial_part(ps[0]));
            assert(k >= 1);
            lemma_part_start_monotone(ps, 0, k - 1);
            assert(part_start(ps, k) == part_start(ps, k - 1) + ps[k - 1].len() + 1);
        }
    }
}

/// Whether two byte strings are equal.
pub fn bytes_eq(a: &[u8], b: &[u8]) -> (r: bool)
    ensures
        r == (a@ == b@),
{
    if a.len() != b.len() {
        return false;
    }
    let mut i: usize = 0;
    while i < a.len()
        invariant
            i <= a.len(),
            a.len() == b.len(),
            forall|k: int| 0 <= k < i ==> a@[k] == b@[k],
        decreases a.len() - i,
    {
        if a[i] != b[i] {
            return false;
        }
        i = i + 1;
    }
    assert(a@ =~= b@);
    true
}

fn is_dot(p: &[u8]) -> (r: bool)
    ensures
        r == (p@ == seq![DOT]),
{
    let r = p.len() == 1 && p[0] == DOT;
    proof {
        if r {
            assert(p@ =~= seq![DOT]);
        }
    }
    r
}

fn is_trivial(p: &[u8]) -> (r: bool)
    ensures
        r == is_trivial_part(p@),
{
    p.len() == 0 || is_dot(p)
}

/// The normal and parent-directory components of a path.
pub fn path_body_exec(s: &[u8]) -> (body: Vec<Vec<u8>>)
    ensures
        byte_seqs(body@) == path_body(s@),
{
    let parts = split_parts_exec(s);
    let ghost ps = split_parts(s@);
    let mut body: Vec<Vec<u8>> = Vec::new();
    let mut i: usize = 0;
    assert(ps.subrange(0, 0) =~= Seq::<Seq<u8>>::empty());
    while i < parts.len()
        invariant
            i <= parts.len(),
            byte_seqs(parts@) == ps,
            byte_seqs(body@) == keep_nontrivial(ps.subrange(0, i as int)),
        decreases parts.len() - i,
    {
        assert(ps.subrange(0, i + 1).drop_last() =~= ps.subrange(0, i as int));
        assert(ps[i as int] == parts@[i as int]@);
        if !is_trivial(parts[i].as_slice()) {
            let ghost old_body = body@;
            body.push(parts[i].clone());
            assert(byte_seqs(body@) =~= byte_seqs(old_body).push(ps[i as int]));
        }
        i = i + 1;
    }
    assert(ps.subrange(0, parts.len() as int) =~= ps);
    body
}

/// The components of a path, encoded as in [`components`].
pub fn components_exec(s: &[u8]) -> (comps: Vec<Vec<u8>>)
    ensures
        byte_seqs(comps@) == components(s@),
{
    let body = path_body_exec(s);
    let parts = split_parts_exec(s);
    proof {
        lemma_split_parts_len(s@);
    }
    assert(parts@[0]@ == split_parts(s@)[0]);
    let mut comps: Vec<Vec<u8>> = Vec::new();
    if s.len() > 0 && s[0] == SEP {
        comps.push(vec![SEP]);
        assert(comps@[0]@ =~= seq![SEP]);
        assert(byte_seqs(comps@) =~= path_start(s@));
    } else if is_dot(parts[0].as_slice()) {
        comps.push(vec![DOT]);
        assert(comps@[0]@ =~= seq![DOT]);
        assert(byte_seqs(comps@) =~= path_start(s@));
    } else {
        assert(byte_seqs(comps@) =~= path_start(s@));
    }
    let ghost head = byte_seqs(comps@);
    let mut i: usize = 0;
    assert(head + path_body(s@).subrange(0, 0) =~= head);
    while i < body.len()
        invariant
            i <= body.len(),
            byte_seqs(body@) == path_body(s@),
            head == path_start(s@),
            byte_seqs(comps@) == head + path_body(s@).subrange(0, i as int),
        decreases body.len() - i,
    {
        let ghost old_comps = comps@;
        assert(body@[i as int]@ == path_body(s@)[i as int]);
        comps.push(body[i].clone());
        assert(byte_seqs(comps@) =~= byte_seqs(old_comps).push(path_body(s@)[i as int]));
        assert(byte_seqs(comps@) =~= head + path_body(s@).subrange(0, i + 1));
        i = i + 1;
    }
    assert(path_body(s@).subrange(0, body.len() as int) =~= path_body(s@));
    comps
}

/// Whether the byte strings of `a` are the first ones of `b`.
fn parts_prefix(a: &Vec<Vec<u8>>, b: &Vec<Vec<u8>>) -> (r: bool)
    ensures
        r == (a@.len() <= b@.len() && byte_seqs(b@).subrange(0, a@.len() as int) == byte_seqs(
            a@,
        )),
{
    if a.len() > b.len() {
        return false;
    }
    let mut i: usize = 0;
    while i < a.len()
        invariant
            i <= a.len(),
            a.len() <= b.len(),
            forall|k: int| 0 <= k < i ==> a@[k]@ == b@[k]@,
        decreases a.len() - i,
    {
        if !bytes_eq(a[i].as_slice(), b[i].as_slice()) {
            assert(byte_seqs(b@).subrange(0, a@.len() as int)[i as int] != byte_seqs(a@)[i as int]);
            return false;
        }
        i = i + 1;
    }
    assert(byte_seqs(b@).subrange(0, a@.len() as int) =~= byte_seqs(a@));
    true
}

/// Whether two paths have the same components (host path equality).
pub fn path_eq(a: &[u8], b: &[u8]) -> (r: bool)
    ensures
        r == (components(a@) == components(b@)),
{
    let ca = components_exec(a);
    let cb = components_exec(b);
    assert(byte_seqs(ca@).len() == ca@.len());
    assert(byte_seqs(cb@).len() == cb@.len());
    let r = ca.len() == cb.len() && parts_prefix(&ca, &cb);
    proof {
        if ca.len() == cb.len() {
            assert(byte_seqs(cb@).subrange(0, ca@.len() as int) =~= byte_seqs(cb@));
        }
    }
    r
}

/// Whether `base`'s components are a prefix of `p`'s.
pub fn starts_with_exec(p: &[u8], base: &[u8]) -> (r: bool)
    ensures
        r == path_starts_with(p@, base@),
{
    let cp = components_exec(p);
    let cb = components_exec(base);
    parts_prefix(&cb, &cp)
}

/// `p`'s components are `base`'s followed by `rest`'s: what
/// `p.strip_prefix(base) == Some(rest)` means for host paths.
pub open spec fn strips_to(p: Seq<u8>, base: Seq<u8>, rest: Seq<u8>) -> bool {
    path_starts_with(p, base) && components(p).skip(components(base).len() as int) == components(
        rest,
    )
}

/// Whether `p`'s components are `base`'s followed by `rest`'s.
pub fn strips_to_exec(p: &[u8], base: &[u8], rest: &[u8]) -> (r: bool)
    ensures
        r == strips_to(p@, base@, rest@),
{
    let cp = components_exec(p);
    let cb = components_exec(base);
    let cr = components_exec(rest);
    assert(byte_seqs(cp@).len() == cp@.len());
    assert(byte_seqs(cb@).len() == cb@.len());
    assert(byte_seqs(cr@).len() == cr@.len());
    if !parts_prefix(&cb, &cp) {
        return false;
    }
    let skip = cb.len();
    if cp.len() - skip != cr.len() {
        assert(components(p@).skip(skip as int).len() != components(rest@).len());
        return false;
    }
    let mut k: usize = 0;
    while k < cr.len()
        invariant
            k <= cr.len(),
            skip + cr.len() == cp.len(),
            skip == cb@.len(),
            byte_seqs(cp@) == components(p@),
            byte_seqs(cb@) == components(base@),
            byte_seqs(cr@) == components(rest@),
            forall|j: int| 0 <= j < k ==> cp@[skip + j]@ == cr@[j]@,
        decreases cr.len() - k,
    {
        if !bytes_eq(cp[skip + k].as_slice(), cr[k].as_slice()) {
            assert(components(p@).skip(skip as int)[k as int] != components(rest@)[k as int]);
            return false;
        }
        k = k + 1;
    }
    assert(components(p@).skip(skip as int) =~= components(rest@));
    true
}

/// The final component when it is a normal name.
pub fn file_name_exec(s: &[u8]) -> (name: Option<Vec<u8>>)
    ensures
        match name {
            Some(n) => file_name(s@) == Some(n@),
            None => file_name(s@) is None,
        },
{
    let body = path_body_exec(s);
    if body.len() == 0 {
        return None;
    }
    let last = &body[body.len() - 1];
    assert(path_body(s@).last() == last@);
    let is_parent = last.len() == 2 && last[0] == DOT && last[1] == DOT;
    assert(is_parent == (last@ == dot_dot())) by {
        if is_parent {
            assert(last@ =~= dot_dot());
        }
    }
    if is_parent {
        None
    } else {
        Some(last.clone())
    }
}

/// The length of the parent path's bytes, as [`parent_len`] says.
pub fn parent_len_exec(s: &[u8]) -> (len: Option<usize>)
    ensures
        match len {
            Some(n) => parent_len(s@) == Some(n as int) && n <= s.len(),
            None => parent_len(s@) is None,
        },
{
    let parts = split_parts_exec(s);
    let ghost ps = split_parts(s@);
    proof {
        lemma_part_bounds(s@);
    }
    // last: the last non-trivial part so far and its end; prev: the one before it.
    let mut last: Option<(usize, usize)> = None;
    let mut prev: Option<(usize, usize)> = None;
    let mut offset: usize = 0;
    let mut i: usize = 0;
    while i < parts.len()
        invariant
            i <= parts.len(),
            byte_seqs(parts@) == ps,
            ps == split_parts(s@),
            ps.len() >= 1,
            forall|j: int|
                0 <= j < ps.len() ==> 0 <= #[trigger] part_start(ps, j) && part_start(ps, j)
                    + ps[j].len() <= s.len(),
            i < parts.len() ==> offset == part_start(ps, i as int),
            match last {
                Some((k, e)) => {
                    &&& k < i
                    &&& last_nontrivial_before(ps, i as int) == k as int
                    &&& e == part_start(ps, k as int) + ps[k as int].len()
                    &&& match prev {
                        Some((j, f)) => {
                            &&& j < k
                            &&& last_nontrivial_before(ps, k as int) == j as int
                            &&& f == part_start(ps, j as int) + ps[j as int].len()
                        },
                        None => last_nontrivial_before(ps, k as int) == -1,
                    }
                },
                None => last_nontrivial_before(ps, i as int) == -1,
            },
        decreases parts.len() - i,
    {
        assert(ps[i as int] == parts@[i as int]@);
        let len_i = parts[i].len();
        if !is_trivial(parts[i].as_slice()) {
            prev = last;
            last = Some((i, offset + len_i));
        }
        if i + 1 < parts.len() {
            assert(part_start(ps, i + 1) == part_start(ps, i as int) + ps[i as int].len() + 1);
            assert(part_start(ps, i + 1) + ps[i + 1].len() <= s.len());
            offset = offset + len_i + 1;
        }
        i = i + 1;
    }
    let root_or_cur = (s.len() > 0 && s[0] == SEP) || (!(s.len() > 0 && s[0] == SEP) && is_dot(
        parts[0].as_slice(),
    ));
    assert(ps[0] == parts@[0]@);
    match last {
        Some((_, _)) => match prev {
            Some((_, f)) => Some(f),
            None => if root_or_cur {
                assert(s.len() >= 1) by {
                    if s.len() == 0 {
                        assert(ps =~= seq![Seq::<u8>::empty()]);
                    }
                }
                Some(1)
            } else {
                Some(0)
            },
        },
        None => if root_or_cur && !(s.len() > 0 && s[0] == SEP) {
            Some(0)
        } else {
            None
        },
    }
}

/// Appends a relative `name` to `base` as [`push_name`] says.
pub fn push_name_exec(base: &[u8], name: &[u8]) -> (joined: Vec<u8>)
    requires
        base.len() + name.len() + 1 <= usize::MAX,
    ensures
        joined@ == push_name(base@, name@),
{
    let mut joined: Vec<u8> = Vec::new();
    let mut i: usize = 0;
    while i < base.len()
        invariant
            i <= base.len(),
            joined@ == base@.subrange(0, i as int),
        decreases base.len() - i,
    {
        joined.push(base[i]);
        i = i + 1;
        assert(joined@ =~= base@.subrange(0, i as int));
    }
    assert(base@.subrange(0, base.len() as int) =~= base@);
    if base.len() > 0 && base[base.len() - 1] != SEP {
        joined.push(SEP);
    }
    let ghost head = joined@;
    let mut k: usize = 0;
    while k < name.len()
        invariant
            k <= name.len(),
            joined@ == head + name@.subrange(0, k as int),
        decreases name.len() - k,
    {
        joined.push(name[k]);
        k = k + 1;
        assert(joined@ =~= head + name@.subrange(0, k as int));
    }
    assert(name@.subrange(0, name.len() as int) =~= name@);
    joined
}


/// The bytes a sequence of parts takes, one separator counted per part.
pub open spec fn parts_weight(parts: Seq<Seq<u8>>) -> int
    decreases parts.len(),
{
    if parts.len() == 0 {
        0
    } else {
        parts_weight(parts.drop_last()) + parts.last().len() + 1
    }
}

/// The parts of a path weigh one more than the path.
pub proof fn lemma_split_weight(s: Seq<u8>)
    ensures
        parts_weight(split_parts(s)) == s.len() + 1,
    decreases s.len(),
{
    if s.len() > 0 {
        let t = s.drop_last();
        lemma_split_weight(t);
        lemma_split_parts_len(t);
        let q = split_parts(t);
        let p = split_parts(s);
        if s.last() != SEP {
            assert(p.drop_last() =~= q.drop_last());
            assert(p.last() == q.last().push(s.last()));
            assert(parts_weight(q) == parts_weight(q.drop_last()) + q.last().len() + 1);
            assert(parts_weight(p) == parts_weight(p.drop_last()) + p.last().len() + 1);
        } else {
            assert(p.drop_last() =~= q);
            assert(parts_weight(p) == parts_weight(p.drop_last()) + p.last().len() + 1);
        }
    } else {
        let p = split_parts(s);
        assert(p.drop_last() =~= Seq::<Seq<u8>>::empty());
        assert(parts_weight(p) == parts_weight(p.drop_last()) + p.last().len() + 1);
    }
}

proof fn lemma_keep_weight(parts: Seq<Seq<u8>>)
    ensures
        0 <= parts_weight(keep_nontrivial(parts)) <= parts_weight(parts),
    decreases parts.len(),
{
    if parts.len() > 0 {
        lemma_keep_weight(parts.drop_last());
        let k = keep_nontrivial(parts.drop_last());
        if !is_trivial_part(parts.last()) {
            assert(k.push(parts.last()).drop_last() =~= k);
        }
    }
}

pub proof fn lemma_weight_prefix(parts: Seq<Seq<u8>>, m: int)
    requires
        0 <= m <= parts.len(),
    ensures
        0 <= parts_weight(parts.subrange(0, m)) <= parts_weight(parts),
    decreases parts.len() - m,
{
    if m < parts.len() {
        lemma_weight_prefix(parts, m + 1);
        assert(parts.subrange(0, m + 1).drop_last() =~= parts.subrange(0, m));
    } else {
        assert(parts.subrange(0, m) =~= parts);
    }
    lemma_weight_nonneg(parts);
    lemma_weight_nonneg(parts.subrange(0, m));
}

proof fn lemma_weight_nonneg(parts: Seq<Seq<u8>>)
    ensures
        parts_weight(parts) >= 0,
    decreases parts.len(),
{
    if parts.len() > 0 {
        lemma_weight_nonneg(parts.drop_last());
    }
}

/// The body of a path weighs at most one more than the path.
pub proof fn lemma_body_weight(s: Seq<u8>)
    ensures
        0 <= parts_weight(path_body(s)) <= s.len() + 1,
        forall|m: int|
            0 <= m <= path_body(s).len() ==> 0 <= #[trigger] parts_weight(
                path_body(s).subrange(0, m),
            ) <= s.len() + 1,
{
    lemma_split_weight(s);
    lemma_keep_weight(split_parts(s));
    assert forall|m: int| 0 <= m <= path_body(s).len() implies 0 <= #[trigger] parts_weight(
        path_body(s).subrange(0, m),
    ) <= s.len() + 1 by {
        lemma_weight_prefix(path_body(s), m);
    }
}

} // verus!
