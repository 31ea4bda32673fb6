//! What a listing of a decoded file shows, and in which order.
//!
//! Nothing here touches the decoded values: the functions of this module pick
//! sections, entries and tensors and hand back their positions. Turning them
//! into text is left to the caller.

use crate::metadata::MetadataKV;
use crate::tensor::TensorInfo;
use crate::value::GGUFValue;
use vstd::prelude::*;
use vstd::string::StringSliceAdditionalSpecFns;
use vstd::utf8::encode_utf8;

verus! {

/// How many elements of a long array a listing shows.
pub const ARRAY_PREVIEW: usize = 8;

/// `needle` stands in `hay` at `at`.
pub open spec fn occurs_at(needle: Seq<u8>, hay: Seq<u8>, at: int) -> bool {
    &&& 0 <= at
    &&& at + needle.len() <= hay.len()
    &&& hay.subrange(at, at + needle.len()) == needle
}

/// `needle` stands somewhere in `hay` as a run of consecutive bytes. The
/// empty run stands everywhere.
pub open spec fn occurs_in(needle: Seq<u8>, hay: Seq<u8>) -> bool {
    exists|at: int| occurs_at(needle, hay, at)
}

/// `a` and `b` agree in their first `k` bytes and `a` is the lesser from
/// there: it ends, or its next byte is the smaller one.
pub open spec fn parts_at(a: Seq<u8>, b: Seq<u8>, k: int) -> bool {
    &&& 0 <= k <= a.len()
    &&& k < b.len()
    &&& forall|i: int| 0 <= i < k ==> a[i] == b[i]
    &&& k < a.len() ==> a[k] < b[k]
}

/// `a` comes strictly before `b` in the order of a dictionary, byte by byte.
pub open spec fn lex_lt(a: Seq<u8>, b: Seq<u8>) -> bool {
    exists|k: int| parts_at(a, b, k)
}

/// How two keys stand to one another.
#[derive(Debug, Clone, Copy, PartialEq, Eq, Structural)]
pub enum KeyOrder {
    Before,
    Same,
    After,
}

/// Whether `needle` stands in `hay` at `at`.
fn matches_at(hay: &[u8], needle: &[u8], at: usize) -> (found: bool)
    requires
        at + needle@.len() <= hay@.len(),
    ensures
        found == occurs_at(needle@, hay@, at as int),
{
    let mut i: usize = 0;
    while i < needle.len()
        invariant
            i <= needle.len(),
            at + needle.len() <= hay.len(),
            forall|j: int| 0 <= j < i ==> hay@[at + j] == needle@[j],
        decreases needle@.len() - i,
    {
        if hay[at + i] != needle[i] {
            assert(hay@.subrange(at as int, at + needle@.len())[i as int] != needle@[i as int]);
            return false;
        }
        i += 1;
    }
    assert(hay@.subrange(at as int, at + needle@.len()) =~= needle@);
    true
}

/// Whether `needle` stands somewhere in `hay`.
pub fn contains_bytes(hay: &[u8], needle: &[u8]) -> (found: bool)
    ensures
        found == occurs_in(needle@, hay@),
{
    if needle.len() > hay.len() {
        return false;
    }
    let last = hay.len() - needle.len();
    let mut at: usize = 0;
    loop
        invariant
            last == hay.len() - needle.len(),
            at <= last,
            forall|j: int| 0 <= j < at ==> !occurs_at(needle@, hay@, j),
        decreases last - at,
    {
        if matches_at(hay, needle, at) {
            return true;
        }
        if at == last {
            return false;
        }
        at += 1;
    }
}

/// Whether the text `pattern` stands somewhere in `text`.
pub fn text_contains(text: &str, pattern: &str) -> (found: bool)
    ensures
        found == occurs_in(pattern.spec_bytes(), text.spec_bytes()),
{
    contains_bytes(text.as_bytes(), pattern.as_bytes())
}

/// Compares two keys in the order of a dictionary, byte by byte.
pub fn key_order(a: &[u8], b: &[u8]) -> (r: KeyOrder)
    ensures
        r == KeyOrder::Before <==> lex_lt(a@, b@),
        r == KeyOrder::Same <==> a@ == b@,
        r == KeyOrder::After <==> lex_lt(b@, a@),
{
    let mut i: usize = 0;
    while i < a.len() && i < b.len()
        invariant
            i <= a@.len(),
            i <= b@.len(),
            forall|j: int| 0 <= j < i ==> a@[j] == b@[j],
        decreases a@.len() - i,
    {
        if a[i] < b[i] {
            proof {
                assert(parts_at(a@, b@, i as int));
                lemma_lex_lt_excludes(a@, b@);
            }
            return KeyOrder::Before;
        }
        if a[i] > b[i] {
            proof {
                assert(parts_at(b@, a@, i as int));
                lemma_lex_lt_excludes(b@, a@);
            }
            return KeyOrder::After;
        }
        i += 1;
    }
    if i < b.len() {
        proof {
            assert(parts_at(a@, b@, i as int));
            lemma_lex_lt_excludes(a@, b@);
        }
        KeyOrder::Before
    } else if i < a.len() {
        proof {
            assert(parts_at(b@, a@, i as int));
            lemma_lex_lt_excludes(b@, a@);
        }
        KeyOrder::After
    } else {
        proof {
            assert(a@ =~= b@);
            lemma_lex_lt_irreflexive(a@);
        }
        KeyOrder::Same
    }
}

/// No key comes before itself.
pub proof fn lemma_lex_lt_irreflexive(a: Seq<u8>)
    ensures
        !lex_lt(a, a),
{
    if lex_lt(a, a) {
        let k = choose|k: int| parts_at(a, a, k);
        assert(a[k] < a[k]);
    }
}

/// A key that comes before another is a different key and does not come
/// behind it.
pub proof fn lemma_lex_lt_excludes(a: Seq<u8>, b: Seq<u8>)
    requires
        lex_lt(a, b),
    ensures
        a != b,
        !lex_lt(b, a),
{
    let k = choose|k: int| parts_at(a, b, k);
    if a == b {
        lemma_lex_lt_irreflexive(a);
    }
    if lex_lt(b, a) {
        let m = choose|m: int| parts_at(b, a, m);
        if m < k {
            assert(a[m] == b[m]);
        } else if k < m {
            assert(b[k] == a[k]);
        }
    }
}

/// The order of keys is transitive.
pub proof fn lemma_lex_lt_transitive(a: Seq<u8>, b: Seq<u8>, c: Seq<u8>)
    requires
        lex_lt(a, b),
        lex_lt(b, c),
    ensures
        lex_lt(a, c),
{
    let k = choose|k: int| parts_at(a, b, k);
    let m = choose|m: int| parts_at(b, c, m);
    if k <= m {
        if k < m {
            assert(b[k] == c[k]);
        }
        assert(parts_at(a, c, k));
    } else {
        assert(a[m] == b[m]);
        assert(parts_at(a, c, m));
    }
}

/// The keys of a metadata table as bytes, in file order.
pub open spec fn keys_of(metadata: Seq<MetadataKV>) -> Seq<Seq<u8>> {
    Seq::new(metadata.len(), |i: int| encode_utf8(metadata[i].key@))
}

/// Entry `i` is listed ahead of entry `j`: its key comes first, or the keys
/// are the same and `i` stands first in the file.
pub open spec fn listed_before(keys: Seq<Seq<u8>>, i: int, j: int) -> bool {
    lex_lt(keys[i], keys[j]) || (keys[i] == keys[j] && i < j)
}

/// The positions in `order` follow one another as a listing shows them.
pub open spec fn in_listing_order(keys: Seq<Seq<u8>>, order: Seq<usize>) -> bool {
    forall|p: int, q: int|
        0 <= p < q < order.len() ==> listed_before(
            keys,
            #[trigger] order[p] as int,
            #[trigger] order[q] as int,
        )
}

/// Being listed ahead is transitive.
pub proof fn lemma_listed_before_transitive(keys: Seq<Seq<u8>>, i: int, j: int, k: int)
    requires
        listed_before(keys, i, j),
        listed_before(keys, j, k),
    ensures
        listed_before(keys, i, k),
{
    if lex_lt(keys[i], keys[j]) && lex_lt(keys[j], keys[k]) {
        lemma_lex_lt_transitive(keys[i], keys[j], keys[k]);
    }
}

/// The bytes of the key of entry `i`.
fn key_bytes(metadata: &Vec<MetadataKV>, i: usize) -> (bytes: &[u8])
    requires
        i < metadata@.len(),
    ensures
        bytes@ == keys_of(metadata@)[i as int],
{
    metadata[i].key.as_str().as_bytes()
}

/// Merges two listings, the first of entries that all stand ahead of those of
/// the second in the file.
fn merge_listings(metadata: &Vec<MetadataKV>, left: &Vec<usize>, right: &Vec<usize>) -> (out: Vec<
    usize,
>)
    requires
        forall|p: int| 0 <= p < left@.len() ==> left@[p] < metadata@.len(),
        forall|q: int| 0 <= q < right@.len() ==> right@[q] < metadata@.len(),
        forall|p: int, q: int|
            0 <= p < left@.len() && 0 <= q < right@.len() ==> left@[p] < right@[q],
        in_listing_order(keys_of(metadata@), left@),
        in_listing_order(keys_of(metadata@), right@),
        left@.len() + right@.len() <= usize::MAX,
    ensures
        out@.len() == left@.len() + right@.len(),
        in_listing_order(keys_of(metadata@), out@),
        forall|p: int| 0 <= p < left@.len() ==> out@.contains(left@[p]),
        forall|q: int| 0 <= q < right@.len() ==> out@.contains(right@[q]),
        forall|r: int|
            0 <= r < out@.len() ==> left@.contains(#[trigger] out@[r]) || right@.contains(out@[r]),
{
    let ghost keys = keys_of(metadata@);
    let mut out: Vec<usize> = Vec::new();
    let mut i: usize = 0;
    let mut j: usize = 0;
    while i < left.len() || j < right.len()
        invariant
            keys == keys_of(metadata@),
            i <= left@.len(),
            j <= right@.len(),
            out@.len() == i + j,
            left@.len() + right@.len() <= usize::MAX,
            forall|p: int| 0 <= p < left@.len() ==> left@[p] < metadata@.len(),
            forall|q: int| 0 <= q < right@.len() ==> right@[q] < metadata@.len(),
            forall|p: int, q: int|
                0 <= p < left@.len() && 0 <= q < right@.len() ==> left@[p] < right@[q],
            in_listing_order(keys, left@),
            in_listing_order(keys, right@),
            in_listing_order(keys, out@),
            forall|r: int, p: int|
                0 <= r < out@.len() && i <= p < left@.len() ==> listed_before(
                    keys,
                    #[trigger] out@[r] as int,
                    #[trigger] left@[p] as int,
                ),
            forall|r: int, q: int|
                0 <= r < out@.len() && j <= q < right@.len() ==> listed_before(
                    keys,
                    #[trigger] out@[r] as int,
                    #[trigger] right@[q] as int,
                ),
            forall|p: int| 0 <= p < i ==> out@.contains(left@[p]),
            forall|q: int| 0 <= q < j ==> out@.contains(right@[q]),
            forall|r: int|
                0 <= r < out@.len() ==> left@.contains(#[trigger] out@[r]) || right@.contains(
                    out@[r],
                ),
        decreases left@.len() - i + right@.len() - j,
    {
        let take_left = if j == right.len() {
            true
        } else if i == left.len() {
            false
        } else {
            key_order(key_bytes(metadata, left[i]), key_bytes(metadata, right[j]))
                != KeyOrder::After
        };
        let ghost before = out@;
        if take_left {
            let x = left[i];
            proof {
                assert forall|q: int| j <= q < right@.len() implies listed_before(
                    keys,
                    x as int,
                    #[trigger] right@[q] as int,
                ) by {
                    assert(listed_before(keys, x as int, right@[j as int] as int));
                    if q > j {
                        lemma_listed_before_transitive(
                            keys,
                            x as int,
                            right@[j as int] as int,
                            right@[q] as int,
                        );
                    }
                }
            }
            out.push(x);
            i += 1;
            proof {
                lemma_pushed(before, x);
            }
        } else {
            let y = right[j];
            proof {
                assert forall|p: int| i <= p < left@.len() implies listed_before(
                    keys,
                    y as int,
                    #[trigger] left@[p] as int,
                ) by {
                    assert(listed_before(keys, y as int, left@[i as int] as int));
                    if p > i {
                        lemma_listed_before_transitive(
                            keys,
                            y as int,
                            left@[i as int] as int,
                            left@[p] as int,
                        );
                    }
                }
            }
            out.push(y);
            j += 1;
            proof {
                lemma_pushed(before, y);
            }
        }
    }
    out
}

/// What pushing `x` does to membership.
proof fn lemma_pushed(before: Seq<usize>, x: usize)
    ensures
        before.push(x).contains(x),
        forall|v: usize| before.contains(v) ==> #[trigger] before.push(x).contains(v),
{
    let after = before.push(x);
    assert(after[before.len() as int] == x);
    assert forall|v: usize| before.contains(v) implies #[trigger] after.contains(v) by {
        let r = choose|r: int| 0 <= r < before.len() && before[r] == v;
        assert(after[r] == v);
    }
}

/// The entries `lo..hi` in the order in which a listing shows them.
fn listing_of_range(metadata: &Vec<MetadataKV>, lo: usize, hi: usize) -> (out: Vec<usize>)
    requires
        lo <= hi <= metadata@.len(),
    ensures
        out@.len() == hi - lo,
        forall|r: int| 0 <= r < out@.len() ==> lo <= #[trigger] out@[r] < hi,
        forall|i: usize| lo <= i < hi ==> out@.contains(i),
        in_listing_order(keys_of(metadata@), out@),
    decreases hi - lo,
{
    if hi - lo == 0 {
        return Vec::new();
    }
    if hi - lo == 1 {
        let mut out: Vec<usize> = Vec::new();
        out.push(lo);
        assert(out@[0] == lo);
        return out;
    }
    let mid = lo + (hi - lo) / 2;
    let left = listing_of_range(metadata, lo, mid);
    let right = listing_of_range(metadata, mid, hi);
    let out = merge_listings(metadata, &left, &right);
    proof {
        assert forall|i: usize| lo <= i < hi implies out@.contains(i) by {
            if i < mid {
                assert(left@.contains(i));
                let p = choose|p: int| 0 <= p < left@.len() && left@[p] == i;
                assert(out@.contains(left@[p]));
            } else {
                assert(right@.contains(i));
                let q = choose|q: int| 0 <= q < right@.len() && right@[q] == i;
                assert(out@.contains(right@[q]));
            }
        }
        assert forall|r: int| 0 <= r < out@.len() implies lo <= #[trigger] out@[r] < hi by {
            if left@.contains(out@[r]) {
                let p = choose|p: int| 0 <= p < left@.len() && left@[p] == out@[r];
            } else {
                let q = choose|q: int| 0 <= q < right@.len() && right@[q] == out@[r];
            }
        }
    }
    out
}

/// The positions of all entries in the order in which a listing shows them:
/// sorted by key, entries of the same key in file order.
pub fn listing_order(metadata: &Vec<MetadataKV>) -> (order: Vec<usize>)
    ensures
        order@.len() == metadata@.len(),
        forall|i: usize| i < metadata@.len() <==> order@.contains(i),
        in_listing_order(keys_of(metadata@), order@),
{
    let order = listing_of_range(metadata, 0, metadata.len());
    proof {
        assert forall|i: usize| order@.contains(i) implies i < metadata@.len() by {
            let r = choose|r: int| 0 <= r < order@.len() && order@[r] == i;
        }
    }
    order
}

/// The bytes of a filter text, where there is a filter.
pub open spec fn filter_bytes(filter: Option<&str>) -> Option<Seq<u8>> {
    match filter {
        Some(pattern) => Some(pattern.spec_bytes()),
        None => None,
    }
}

/// A name passes a filter when the filter's text stands somewhere in it;
/// without a filter every name passes.
pub open spec fn passes(filter: Option<Seq<u8>>, name: Seq<u8>) -> bool {
    match filter {
        Some(pattern) => occurs_in(pattern, name),
        None => true,
    }
}

/// The names of a tensor table as bytes, in file order.
pub open spec fn names_of(tensors: Seq<TensorInfo>) -> Seq<Seq<u8>> {
    Seq::new(tensors.len(), |i: int| encode_utf8(tensors[i].name@))
}

/// The positions in `order` ascend.
pub open spec fn in_file_order(order: Seq<usize>) -> bool {
    forall|p: int, q: int| 0 <= p < q < order.len() ==> #[trigger] order[p] < #[trigger] order[q]
}

/// Whether `name` passes `filter`.
pub fn passes_filter(filter: Option<&str>, name: &str) -> (shown: bool)
    ensures
        shown == passes(filter_bytes(filter), name.spec_bytes()),
{
    match filter {
        Some(pattern) => text_contains(name, pattern),
        None => true,
    }
}

/// The positions of the metadata entries that a listing shows, in the order
/// in which it shows them: those whose key passes the filter, sorted by key,
/// entries of the same key in file order.
pub fn select_metadata(metadata: &Vec<MetadataKV>, filter: Option<&str>) -> (shown: Vec<usize>)
    ensures
        in_listing_order(keys_of(metadata@), shown@),
        forall|i: usize|
            shown@.contains(i) <==> i < metadata@.len() && passes(
                filter_bytes(filter),
                keys_of(metadata@)[i as int],
            ),
{
    let ghost keys = keys_of(metadata@);
    let order = listing_order(metadata);
    let mut shown: Vec<usize> = Vec::new();
    let mut k: usize = 0;
    while k < order.len()
        invariant
            k <= order@.len(),
            keys == keys_of(metadata@),
            order@.len() == metadata@.len(),
            forall|i: usize| i < metadata@.len() <==> order@.contains(i),
            in_listing_order(keys, order@),
            in_listing_order(keys, shown@),
            forall|r: int, q: int|
                0 <= r < shown@.len() && k <= q < order@.len() ==> listed_before(
                    keys,
                    #[trigger] shown@[r] as int,
                    #[trigger] order@[q] as int,
                ),
            forall|r: int|
                0 <= r < shown@.len() ==> (#[trigger] shown@[r]) < metadata@.len() && passes(
                    filter_bytes(filter),
                    keys[shown@[r] as int],
                ),
            forall|q: int|
                0 <= q < k && passes(filter_bytes(filter), keys[order@[q] as int])
                    ==> shown@.contains(#[trigger] order@[q]),
        decreases order@.len() - k,
    {
        let i = order[k];
        assert(order@.contains(i));
        let ghost before = shown@;
        if passes_filter(filter, metadata[i].key.as_str()) {
            shown.push(i);
            proof {
                lemma_pushed(before, i);
            }
        }
        k += 1;
    }
    proof {
        assert forall|i: usize|
            i < metadata@.len() && passes(
                filter_bytes(filter),
                keys[i as int],
            ) implies shown@.contains(i) by {
            assert(order@.contains(i));
            let q = choose|q: int| 0 <= q < order@.len() && order@[q] == i;
            assert(shown@.contains(order@[q]));
        }
        assert forall|i: usize| shown@.contains(i) implies i < metadata@.len() && passes(
            filter_bytes(filter),
            keys[i as int],
        ) by {
            let r = choose|r: int| 0 <= r < shown@.len() && shown@[r] == i;
        }
    }
    shown
}

/// The positions of the tensors that a listing shows: those whose name passes
/// the filter, in file order.
pub fn select_tensors(tensors: &Vec<TensorInfo>, filter: Option<&str>) -> (shown: Vec<usize>)
    ensures
        in_file_order(shown@),
        forall|i: usize|
            shown@.contains(i) <==> i < tensors@.len() && passes(
                filter_bytes(filter),
                names_of(tensors@)[i as int],
            ),
{
    let ghost names = names_of(tensors@);
    let mut shown: Vec<usize> = Vec::new();
    let mut k: usize = 0;
    while k < tensors.len()
        invariant
            k <= tensors@.len(),
            names == names_of(tensors@),
            in_file_order(shown@),
            forall|r: int|
                0 <= r < shown@.len() ==> (#[trigger] shown@[r]) < k && passes(
                    filter_bytes(filter),
                    names[shown@[r] as int],
                ),
            forall|i: usize|
                i < k && passes(filter_bytes(filter), names[i as int]) ==> shown@.contains(i),
        decreases tensors@.len() - k,
    {
        let ghost before = shown@;
        if passes_filter(filter, tensors[k].name.as_str()) {
            shown.push(k);
            proof {
                lemma_pushed(before, k);
            }
        }
        k += 1;
    }
    proof {
        assert forall|i: usize| shown@.contains(i) implies i < tensors@.len() && passes(
            filter_bytes(filter),
            names[i as int],
        ) by {
            let r = choose|r: int| 0 <= r < shown@.len() && shown@[r] == i;
        }
    }
    shown
}

/// The sections of a listing.
#[derive(Debug, Clone, Copy, PartialEq, Eq, Structural)]
pub struct Sections {
    pub header: bool,
    pub metadata: bool,
    pub tensors: bool,
}

/// The sections that a listing shows: the ones asked for, and all of them
/// when none is asked for.
pub fn sections_to_show(header: bool, metadata: bool, tensors: bool) -> (shown: Sections)
    ensures
        shown.header == (header || !(header || metadata || tensors)),
        shown.metadata == (metadata || !(header || metadata || tensors)),
        shown.tensors == (tensors || !(header || metadata || tensors)),
{
    let show_all = !header && !metadata && !tensors;
    Sections {
        header: show_all || header,
        metadata: show_all || metadata,
        tensors: show_all || tensors,
    }
}

/// The elements that stand for an array too long to be listed whole: its
/// first [`ARRAY_PREVIEW`] ones. An array of up to that length is listed
/// whole and has no preview.
pub fn array_preview(items: &Vec<GGUFValue>) -> (preview: Option<&[GGUFValue]>)
    ensures
        match preview {
            Some(first) => items@.len() > ARRAY_PREVIEW && first@ == items@.subrange(
                0,
                ARRAY_PREVIEW as int,
            ),
            None => items@.len() <= ARRAY_PREVIEW,
        },
{
    if items.len() > ARRAY_PREVIEW {
        Some(vstd::slice::slice_subrange(items.as_slice(), 0, ARRAY_PREVIEW))
    } else {
        None
    }
}

} // verus!
