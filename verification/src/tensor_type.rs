//! The tensor type table: display name and storage estimate per type code.
//!
//! The estimate counts a fixed number of bits for every element. For the
//! block-quantized types this is an approximation: their real layouts add
//! per-block scale data that a bits-per-element figure does not capture.

use vstd::prelude::*;

verus! {

/// The display name of a tensor type code; codes outside the table are
/// `"UNKNOWN"`.
pub open spec fn dtype_name(dtype: u32) -> Seq<char> {
    match dtype {
        0 => "F32"@,
        1 => "F16"@,
        2 => "Q4_0"@,
        3 => "Q4_1"@,
        6 => "Q5_0"@,
        7 => "Q5_1"@,
        8 => "Q8_0"@,
        9 => "Q8_1"@,
        10 => "Q2_K"@,
        11 => "Q3_K"@,
        12 => "Q4_K"@,
        13 => "Q5_K"@,
        14 => "Q6_K"@,
        15 => "Q8_K"@,
        _ => "UNKNOWN"@,
    }
}

/// The bits that one element is counted with; codes outside the table count
/// for nothing.
pub open spec fn bits_per_element(dtype: u32) -> nat {
    match dtype {
        0 => 32,
        1 => 16,
        2 | 3 => 4,
        6 | 7 => 5,
        8 | 9 => 8,
        10 => 2,
        11 => 3,
        12 => 4,
        13 => 5,
        14 => 6,
        15 => 8,
        _ => 0,
    }
}

/// The product of all extents; a tensor without extents has one element.
pub open spec fn element_count(shape: Seq<u64>) -> nat
    decreases shape.len(),
{
    if shape.len() == 0 {
        1
    } else {
        element_count(shape.drop_last()) * (shape.last() as nat)
    }
}

/// The storage estimate in bytes: elements times bits per element, divided by
/// eight and rounded down.
pub open spec fn estimated_size(dtype: u32, shape: Seq<u64>) -> nat {
    element_count(shape) * bits_per_element(dtype) / 8
}

/// The largest estimate that is still reported.
pub open spec fn size_limit() -> nat {
    u64::MAX as nat
}

/// An extent of zero makes the whole product zero.
pub proof fn lemma_count_with_zero_extent(shape: Seq<u64>, k: int)
    requires
        0 <= k < shape.len(),
        shape[k] == 0,
    ensures
        element_count(shape) == 0,
    decreases shape.len(),
{
    let front = element_count(shape.drop_last());
    let last = shape.last() as nat;
    if k < shape.len() - 1 {
        lemma_count_with_zero_extent(shape.drop_last(), k);
    }
    assert(front * last == 0) by (nonlinear_arith)
        requires
            front == 0 || last == 0,
    ;
}

/// Without a zero extent, the product over a prefix never exceeds the product
/// over the whole shape.
pub proof fn lemma_count_grows(shape: Seq<u64>, k: int)
    requires
        0 <= k <= shape.len(),
        forall|i: int| 0 <= i < shape.len() ==> shape[i] >= 1,
    ensures
        1 <= element_count(shape.take(k)) <= element_count(shape),
    decreases shape.len() - k,
{
    if k == shape.len() {
        assert(shape.take(k) =~= shape);
        lemma_count_positive(shape);
    } else {
        lemma_count_grows(shape, k + 1);
        let longer = shape.take(k + 1);
        assert(longer.drop_last() =~= shape.take(k));
        assert(longer.last() == shape[k]);
        lemma_count_positive(shape.take(k));
        assert(element_count(shape.take(k)) <= element_count(shape.take(k)) * (shape[k] as nat))
            by (nonlinear_arith)
            requires
                shape[k] >= 1,
        ;
    }
}

proof fn lemma_count_positive(shape: Seq<u64>)
    requires
        forall|i: int| 0 <= i < shape.len() ==> shape[i] >= 1,
    ensures
        element_count(shape) >= 1,
    decreases shape.len(),
{
    if shape.len() > 0 {
        lemma_count_positive(shape.drop_last());
        assert(element_count(shape.drop_last()) * (shape.last() as nat) >= 1) by (nonlinear_arith)
            requires
                element_count(shape.drop_last()) >= 1,
                shape.last() >= 1,
        ;
    }
}

/// The bits that one element of type `dtype` is counted with.
pub fn bits_of(dtype: u32) -> (bits: u64)
    ensures
        bits == bits_per_element(dtype),
        bits <= 32,
{
    match dtype {
        0 => 32,
        1 => 16,
        2 | 3 => 4,
        6 | 7 => 5,
        8 | 9 => 8,
        10 => 2,
        11 => 3,
        12 => 4,
        13 => 5,
        14 => 6,
        15 => 8,
        _ => 0,
    }
}

/// The display name of tensor type `dtype`.
pub fn name_of(dtype: u32) -> (name: &'static str)
    ensures
        name@ == dtype_name(dtype),
{
    match dtype {
        0 => "F32",
        1 => "F16",
        2 => "Q4_0",
        3 => "Q4_1",
        6 => "Q5_0",
        7 => "Q5_1",
        8 => "Q8_0",
        9 => "Q8_1",
        10 => "Q2_K",
        11 => "Q3_K",
        12 => "Q4_K",
        13 => "Q5_K",
        14 => "Q6_K",
        15 => "Q8_K",
        _ => "UNKNOWN",
    }
}

/// Whether some extent of `shape` is zero.
fn has_zero_extent(shape: &[u64]) -> (found: bool)
    ensures
        found <==> exists|k: int| 0 <= k < shape@.len() && shape@[k] == 0,
{
    let mut i: usize = 0;
    while i < shape.len()
        invariant
            i <= shape@.len(),
            forall|k: int| 0 <= k < i ==> shape@[k] != 0,
        decreases shape@.len() - i,
    {
        if shape[i] == 0 {
            return true;
        }
        i += 1;
    }
    false
}

/// The storage estimate for a tensor of type `dtype` and extents `shape`, or
/// `None` when it is more than a `u64` can hold.
pub fn estimated_bytes(dtype: u32, shape: &[u64]) -> (r: Option<u64>)
    ensures
        match r {
            Some(size) => size == estimated_size(dtype, shape@),
            None => estimated_size(dtype, shape@) > size_limit(),
        },
{
    let bits = bits_of(dtype);
    if bits == 0 {
        return Some(0);
    }
    if has_zero_extent(shape) {
        proof {
            let k = choose|k: int| 0 <= k < shape@.len() && shape@[k] == 0;
            lemma_count_with_zero_extent(shape@, k);
        }
        return Some(0);
    }
    // The largest element count whose estimate still fits.
    let bit_limit: u128 = 8 * (u64::MAX as u128) + 7;
    let count_limit: u128 = bit_limit / (bits as u128);
    assert(count_limit >= 1) by (nonlinear_arith)
        requires
            count_limit == bit_limit / (bits as u128),
            1 <= bits <= 32,
            bit_limit >= 32,
    ;
    let mut count: u128 = 1;
    let mut i: usize = 0;
    assert(shape@.take(0) =~= Seq::<u64>::empty());
    while i < shape.len()
        invariant
            i <= shape@.len(),
            2 <= bits <= 32,
            bits == bits_per_element(dtype),
            bit_limit == 8 * (u64::MAX as u128) + 7,
            count_limit == bit_limit / (bits as u128),
            forall|k: int| 0 <= k < shape@.len() ==> shape@[k] >= 1,
            count == element_count(shape@.take(i as int)),
            1 <= count <= count_limit,
        decreases shape@.len() - i,
    {
        let extent = shape[i] as u128;
        proof {
            let longer = shape@.take(i + 1);
            assert(longer.drop_last() =~= shape@.take(i as int));
            assert(longer.last() == shape@[i as int]);
        }
        if extent > count_limit / count {
            proof {
                lemma_count_grows(shape@, i + 1);
                let total = element_count(shape@);
                assert(count * extent > count_limit) by (nonlinear_arith)
                    requires
                        count >= 1,
                        extent > count_limit / count,
                ;
                assert(total * bits > bit_limit) by (nonlinear_arith)
                    requires
                        total > count_limit,
                        count_limit == bit_limit / (bits as u128),
                        bits >= 2,
                ;
            }
            return None;
        }
        assert(count * extent <= count_limit) by (nonlinear_arith)
            requires
                count >= 1,
                extent <= count_limit / count,
        ;
        assert(count * extent >= 1) by (nonlinear_arith)
            requires
                count >= 1,
                extent >= 1,
        ;
        count = count * extent;
        i += 1;
    }
    assert(shape@.take(i as int) =~= shape@);
    assert(count * bits <= bit_limit) by (nonlinear_arith)
        requires
            count <= count_limit,
            count_limit == bit_limit / (bits as u128),
            bits >= 2,
    ;
    Some((count * (bits as u128) / 8) as u64)
}

/// Looks a tensor type up in the table: its display name, and the storage
/// estimate for a tensor of that type with extents `shape`.
///
/// The estimate has to fit the result type; [`estimated_bytes`] tells whether
/// it does.
pub fn ggml_type_info(dtype: u32, shape: &[u64]) -> (r: (String, u64))
    requires
        estimated_size(dtype, shape@) <= size_limit(),
    ensures
        r.0@ == dtype_name(dtype),
        r.1 == estimated_size(dtype, shape@),
{
    let size = estimated_bytes(dtype, shape).unwrap();
    (name_of(dtype).to_owned(), size)
}

} // verus!
