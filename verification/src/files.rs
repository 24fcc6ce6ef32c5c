//! File names and paths as bytes: joining, extensions and the order in which a
//! directory is read.
use vstd::prelude::*;
use vstd::relations::{sorted_by, total_ordering};
use vstd::string::StrSliceExecFns;
use vstd::utf8::encode_utf8;

verus! {

/// The bytes held by each vector.
pub open spec fn byte_views(names: Seq<Vec<u8>>) -> Seq<Seq<u8>> {
    Seq::new(names.len(), |i: int| names[i]@)
}

/// `a` comes before `b` or equals it, byte by byte.
pub open spec fn bytes_at_most(a: Seq<u8>, b: Seq<u8>) -> bool
    decreases a.len(),
{
    if a.len() == 0 {
        true
    } else if b.len() == 0 {
        false
    } else if a[0] == b[0] {
        bytes_at_most(a.drop_first(), b.drop_first())
    } else {
        a[0] < b[0]
    }
}

/// [`bytes_at_most`] as a relation.
pub open spec fn byte_order() -> spec_fn(Seq<u8>, Seq<u8>) -> bool {
    |a: Seq<u8>, b: Seq<u8>| bytes_at_most(a, b)
}

/// `path` followed by `relative`, with a slash between them where one is needed.
pub open spec fn joined_path(path: Seq<u8>, relative: Seq<u8>) -> Seq<u8> {
    if relative.len() > 0 && relative[0] == 0x2F {
        relative
    } else if path.len() == 0 || path.last() == 0x2F {
        path + relative
    } else {
        path.push(0x2F) + relative
    }
}

/// `name` is a non-empty stem followed by `suffix`.
pub open spec fn has_suffix(name: Seq<u8>, suffix: Seq<u8>) -> bool {
    name.len() > suffix.len() && name.skip(name.len() - suffix.len()) == suffix
}

/// The UTF-8 bytes of `s`.
pub fn bytes_of(s: &str) -> (r: Vec<u8>)
    ensures
        r@ == encode_utf8(s@),
{
    s.as_bytes_vec()
}

/// Appends `more` to `bytes`.
pub fn append_bytes(bytes: &mut Vec<u8>, more: &[u8])
    ensures
        final(bytes)@ == old(bytes)@ + more@,
{
    let mut i: usize = 0;
    while i < more.len()
        invariant
            i <= more.len(),
            bytes@ == old(bytes)@ + more@.take(i as int),
        decreases more.len() - i,
    {
        bytes.push(more[i]);
        i += 1;
    }
}

/// A copy of the bytes.
pub fn copy_bytes(bytes: &[u8]) -> (r: Vec<u8>)
    ensures
        r@ == bytes@,
{
    let mut r: Vec<u8> = Vec::new();
    append_bytes(&mut r, bytes);
    assert(r@ =~= bytes@);
    r
}

/// Whether both hold the same bytes.
pub fn same_bytes(a: &[u8], b: &[u8]) -> (r: bool)
    ensures
        r == (a@ == b@),
{
    if a.len() != b.len() {
        return false;
    }
    let mut i: usize = 0;
    while i < a.len()
        invariant
            i <= a.len(),
            a.len() == b.len(),
            forall|j: int| 0 <= j < i ==> a@[j] == b@[j],
        decreases a.len() - i,
    {
        if a[i] != b[i] {
            return false;
        }
        i += 1;
    }
    assert(a@ =~= b@);
    true
}

/// `path` followed by `relative`, with a slash between them where one is needed.
pub fn join_path(path: &[u8], relative: &str) -> (r: Vec<u8>)
    ensures
        r@ == joined_path(path@, encode_utf8(relative@)),
{
    let suffix = bytes_of(relative);
    if suffix.len() > 0 && suffix[0] == 0x2F {
        return suffix;
    }
    let mut r = copy_bytes(path);
    if path.len() > 0 && path[path.len() - 1] != 0x2F {
        r.push(0x2F);
    }
    append_bytes(&mut r, suffix.as_slice());
    r
}

/// Whether `name` is a non-empty stem followed by `suffix`.
pub fn ends_with(name: &[u8], suffix: &str) -> (r: bool)
    ensures
        r == has_suffix(name@, encode_utf8(suffix@)),
{
    let wanted = bytes_of(suffix);
    if name.len() <= wanted.len() {
        return false;
    }
    let start: usize = name.len() - wanted.len();
    assert(name@.subrange(start as int, name@.len() as int) =~= name@.skip(start as int));
    same_bytes(vstd::slice::slice_subrange(name, start, name.len()), wanted.as_slice())
}

/// Whether `a` comes before `b` or equals it, byte by byte.
pub fn not_after(a: &[u8], b: &[u8]) -> (r: bool)
    ensures
        r == bytes_at_most(a@, b@),
{
    let mut i: usize = 0;
    assert(a@.skip(0) =~= a@);
    assert(b@.skip(0) =~= b@);
    while i < a.len() && i < b.len() && a[i] == b[i]
        invariant
            i <= a.len(),
            i <= b.len(),
            bytes_at_most(a@, b@) == bytes_at_most(a@.skip(i as int), b@.skip(i as int)),
        decreases a.len() - i,
    {
        assert(a@.skip(i as int).drop_first() =~= a@.skip(i + 1));
        assert(b@.skip(i as int).drop_first() =~= b@.skip(i + 1));
        i += 1;
    }
    if i == a.len() {
        true
    } else if i == b.len() {
        false
    } else {
        a[i] < b[i]
    }
}

/// Comparing byte by byte orders all names.
pub proof fn byte_order_is_total()
    ensures
        total_ordering(byte_order()),
{
    let order = byte_order();
    assert forall|a: Seq<u8>| #[trigger] order(a, a) by {
        lemma_reflexive(a);
    }
    assert forall|a: Seq<u8>, b: Seq<u8>| #[trigger] order(a, b) && #[trigger] order(
        b,
        a,
    ) implies a == b by {
        lemma_antisymmetric(a, b);
    }
    assert forall|a: Seq<u8>, b: Seq<u8>, c: Seq<u8>| #[trigger] order(a, b)
        && #[trigger] order(b, c) implies order(a, c) by {
        lemma_transitive(a, b, c);
    }
    assert forall|a: Seq<u8>, b: Seq<u8>| #[trigger] order(a, b) || #[trigger] order(b, a) by {
        lemma_connected(a, b);
    }
}

proof fn lemma_reflexive(a: Seq<u8>)
    ensures
        bytes_at_most(a, a),
    decreases a.len(),
{
    if a.len() > 0 {
        lemma_reflexive(a.drop_first());
    }
}

proof fn lemma_antisymmetric(a: Seq<u8>, b: Seq<u8>)
    requires
        bytes_at_most(a, b),
        bytes_at_most(b, a),
    ensures
        a == b,
    decreases a.len(),
{
    if a.len() > 0 && b.len() > 0 {
        lemma_antisymmetric(a.drop_first(), b.drop_first());
        assert(a =~= seq![a[0]] + a.drop_first());
        assert(b =~= seq![b[0]] + b.drop_first());
    } else {
        assert(a =~= b);
    }
}

proof fn lemma_transitive(a: Seq<u8>, b: Seq<u8>, c: Seq<u8>)
    requires
        bytes_at_most(a, b),
        bytes_at_most(b, c),
    ensures
        bytes_at_most(a, c),
    decreases a.len(),
{
    if a.len() > 0 && b.len() > 0 && c.len() > 0 && a[0] == b[0] && b[0] == c[0] {
        lemma_transitive(a.drop_first(), b.drop_first(), c.drop_first());
    }
}

proof fn lemma_connected(a: Seq<u8>, b: Seq<u8>)
    ensures
        bytes_at_most(a, b) || bytes_at_most(b, a),
    decreases a.len(),
{
    if a.len() > 0 && b.len() > 0 && a[0] == b[0] {
        lemma_connected(a.drop_first(), b.drop_first());
    }
}

/// The names in byte order.
pub fn sort_names(names: Vec<Vec<u8>>) -> (r: Vec<Vec<u8>>)
    ensures
        byte_views(r@) == byte_views(names@).sort_by(byte_order()),
{
    let ghost all = byte_views(names@);
    let mut sorted: Vec<Vec<u8>> = Vec::new();
    let mut i: usize = 0;
    proof {
        assert(all.take(0) =~= Seq::empty());
        assert(byte_views(sorted@) =~= Seq::empty());
    }
    while i < names.len()
        invariant
            i <= names.len(),
            all == byte_views(names@),
            sorted@.len() == i,
            sorted_by(byte_views(sorted@), byte_order()),
            byte_views(sorted@).to_multiset() == all.take(i as int).to_multiset(),
        decreases names.len() - i,
    {
        let ghost before = byte_views(sorted@);
        let name = copy_bytes(names[i].as_slice());
        let mut at: usize = sorted.len();
        while at > 0 && !not_after(sorted[at - 1].as_slice(), name.as_slice())
            invariant
                at <= sorted.len(),
                before == byte_views(sorted@),
                sorted_by(before, byte_order()),
                forall|j: int| at <= j < before.len() ==> !bytes_at_most(before[j], name@),
            decreases at,
        {
            at -= 1;
        }
        proof {
            byte_order_is_total();
            let order = byte_order();
            let after = before.insert(at as int, name@);
            assert forall|j: int| at <= j < before.len() implies order(name@, before[j]) by {
                assert(!order(before[j], name@));
            }
            assert forall|j: int| 0 <= j < at implies order(before[j], name@) by {
                assert(order(before[at - 1], name@));
                if j < at - 1 {
                    assert(order(before[j], before[at - 1]));
                }
            }
            assert(sorted_by(after, order));
            vstd::seq_lib::to_multiset_insert(before, at as int, name@);
            assert(all.take(i + 1) =~= all.take(i as int).push(name@));
            vstd::seq_lib::to_multiset_build(all.take(i as int), name@);
        }
        sorted.insert(at, name);
        assert(byte_views(sorted@) =~= before.insert(at as int, all[i as int]));
        i += 1;
    }
    proof {
        assert(all.take(i as int) =~= all);
        byte_order_is_total();
        all.lemma_sort_by_ensures(byte_order());
        vstd::seq_lib::lemma_sorted_unique(
            byte_views(sorted@),
            all.sort_by(byte_order()),
            byte_order(),
        );
    }
    sorted
}

/// A relative path goes under the path in front of it, with one slash between the
/// two; an absolute one stands for itself.
pub proof fn paths_are_joined_by_one_slash(path: Seq<u8>, relative: Seq<u8>)
    ensures
        relative.len() > 0 && relative[0] == 0x2F ==> joined_path(path, relative) == relative,
        !(relative.len() > 0 && relative[0] == 0x2F) ==> {
            &&& joined_path(Seq::empty(), relative) == relative
            &&& path.len() > 0 && path.last() != 0x2F ==> joined_path(path, relative) == path
                + seq![0x2Fu8] + relative
            &&& joined_path(path.push(0x2F), relative) == path.push(0x2F) + relative
        },
{
    assert(Seq::<u8>::empty() + relative =~= relative);
    assert(path.push(0x2F) =~= path + seq![0x2Fu8]);
}

/// A name has the suffix exactly if it is a stem with the suffix behind it, and
/// the stem is not empty.
pub proof fn suffixes_stand_behind_a_stem(stem: Seq<u8>, suffix: Seq<u8>, name: Seq<u8>)
    ensures
        has_suffix(stem + suffix, suffix) <==> stem.len() > 0,
        has_suffix(name, suffix) ==> name == name.take(name.len() - suffix.len()) + suffix,
{
    assert((stem + suffix).skip(stem.len() as int) =~= suffix);
    if has_suffix(name, suffix) {
        assert(name =~= name.take(name.len() - suffix.len()) + name.skip(
            name.len() - suffix.len(),
        ));
    }
}

/// Names are ordered by the first byte in which they differ, and a name comes
/// before every longer one that it begins.
pub proof fn the_first_difference_decides(
    common: Seq<u8>,
    x: u8,
    y: u8,
    a: Seq<u8>,
    b: Seq<u8>,
)
    ensures
        bytes_at_most(common, common + a),
        a.len() > 0 ==> !bytes_at_most(common + a, common),
        x < y ==> bytes_at_most(common + seq![x] + a, common + seq![y] + b) && !bytes_at_most(
            common + seq![y] + b,
            common + seq![x] + a,
        ),
    decreases common.len(),
{
    let left = common + seq![x] + a;
    let right = common + seq![y] + b;
    if common.len() == 0 {
        assert(common + a =~= a);
        assert(left[0] == x && right[0] == y);
    } else {
        let rest = common.drop_first();
        the_first_difference_decides(rest, x, y, a, b);
        assert((common + a).drop_first() =~= rest + a);
        assert(left.drop_first() =~= rest + seq![x] + a);
        assert(right.drop_first() =~= rest + seq![y] + b);
    }
}

} // verus!
