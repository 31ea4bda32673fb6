//! Typed metadata values and their decoder.

use crate::error::DecodeError;
use crate::reader::{
    read_bool, read_i16, read_i32, read_i64, read_i8, read_string, read_u16, read_u32,
    read_u64, read_u8, spec_read_bool, spec_read_i16, spec_read_i32, spec_read_i64, spec_read_i8,
    spec_read_string, spec_read_u16, spec_read_u32, spec_read_u64, spec_read_u8, viewed,
};
use vstd::prelude::*;

verus! {

/// How many arrays may stand inside one another. A value nested deeper is
/// refused rather than followed, so that hostile input cannot exhaust the
/// stack.
pub const MAX_ARRAY_DEPTH: u32 = 64;

/// One decoded metadata value.
///
/// The two floating-point kinds carry the IEEE 754 bit pattern exactly as it
/// stands in the file: `F32` in a `u32`, `F64` in a `u64`.
#[derive(Debug, PartialEq)]
pub enum GGUFValue {
    U8(u8),
    I8(i8),
    U16(u16),
    I16(i16),
    U32(u32),
    I32(i32),
    F32(u32),
    U64(u64),
    I64(i64),
    F64(u64),
    Bool(bool),
    String(String),
    Array(Vec<GGUFValue>),
}

/// The mathematical content of a [`GGUFValue`].
pub enum ValueModel {
    U8(u8),
    I8(i8),
    U16(u16),
    I16(i16),
    U32(u32),
    I32(i32),
    F32(u32),
    U64(u64),
    I64(i64),
    F64(u64),
    Bool(bool),
    String(Seq<char>),
    Array(Seq<ValueModel>),
}

impl View for GGUFValue {
    type V = ValueModel;

    open spec fn view(&self) -> ValueModel
        decreases self,
    {
        match self {
            GGUFValue::U8(v) => ValueModel::U8(*v),
            GGUFValue::I8(v) => ValueModel::I8(*v),
            GGUFValue::U16(v) => ValueModel::U16(*v),
            GGUFValue::I16(v) => ValueModel::I16(*v),
            GGUFValue::U32(v) => ValueModel::U32(*v),
            GGUFValue::I32(v) => ValueModel::I32(*v),
            GGUFValue::F32(v) => ValueModel::F32(*v),
            GGUFValue::U64(v) => ValueModel::U64(*v),
            GGUFValue::I64(v) => ValueModel::I64(*v),
            GGUFValue::F64(v) => ValueModel::F64(*v),
            GGUFValue::Bool(v) => ValueModel::Bool(*v),
            GGUFValue::String(s) => ValueModel::String(s@),
            GGUFValue::Array(items) => ValueModel::Array(views_in_order(items@)),
        }
    }
}

/// The views of a run of values, built up from the front. This is the
/// recursion that [`GGUFValue::view`] descends through; [`values_view`] says
/// the same thing element by element.
pub open spec fn views_in_order(items: Seq<GGUFValue>) -> Seq<ValueModel>
    decreases items,
{
    if items.len() == 0 {
        Seq::empty()
    } else {
        views_in_order(items.drop_last()).push(items.last().view())
    }
}

/// The views of a run of values, element by element.
pub open spec fn values_view(items: Seq<GGUFValue>) -> Seq<ValueModel> {
    Seq::new(items.len(), |i: int| items[i]@)
}

proof fn lemma_views_in_order(items: Seq<GGUFValue>)
    ensures
        views_in_order(items) == values_view(items),
    decreases items.len(),
{
    if items.len() == 0 {
        assert(views_in_order(items) == Seq::<ValueModel>::empty());
    } else {
        let front = items.drop_last();
        lemma_views_in_order(front);
        assert(views_in_order(items) == views_in_order(front).push(items.last().view()));
        assert forall|i: int| 0 <= i < items.len() implies views_in_order(items)[i]
            == values_view(items)[i] by {
            if i < front.len() {
                assert(values_view(front)[i] == front[i]@);
            }
        }
    }
    assert(views_in_order(items) =~= values_view(items));
}

/// The view of an array is the array of its elements' views.
pub proof fn lemma_array_view(items: Vec<GGUFValue>)
    ensures
        GGUFValue::Array(items)@ == ValueModel::Array(values_view(items@)),
{
    lemma_views_in_order(items@);
}

/// The wire tag of the kind of a value.
pub open spec fn value_tag(v: ValueModel) -> u32 {
    match v {
        ValueModel::U8(_) => 0,
        ValueModel::I8(_) => 1,
        ValueModel::U16(_) => 2,
        ValueModel::I16(_) => 3,
        ValueModel::U32(_) => 4,
        ValueModel::I32(_) => 5,
        ValueModel::F32(_) => 6,
        ValueModel::Bool(_) => 7,
        ValueModel::String(_) => 8,
        ValueModel::Array(_) => 9,
        ValueModel::U64(_) => 10,
        ValueModel::I64(_) => 11,
        ValueModel::F64(_) => 12,
    }
}

/// A read of a scalar or string, wrapped into the value kind `wrap`.
pub open spec fn carried<T>(
    read: Result<(T, int), DecodeError>,
    wrap: spec_fn(T) -> ValueModel,
) -> Result<(ValueModel, int), DecodeError> {
    match read {
        Ok((v, next)) => Ok((wrap(v), next)),
        Err(e) => Err(e),
    }
}

/// The value of kind `value_type` that starts at `pos`, where up to `depth`
/// arrays may still be entered.
///
/// Tags `0..=12` select the kind; every other tag is `UnknownType`. Tag 9 is
/// an array: an element tag, an element count, then that many values which are
/// all decoded under the one element tag. An array met when `depth` is zero is
/// `ResourceLimitExceeded`.
pub open spec fn spec_read_value(data: Seq<u8>, pos: int, value_type: u32, depth: nat) -> Result<
    (ValueModel, int),
    DecodeError,
>
    decreases depth, 0nat,
{
    match value_type {
        0 => carried(spec_read_u8(data, pos), |v: u8| ValueModel::U8(v)),
        1 => carried(spec_read_i8(data, pos), |v: i8| ValueModel::I8(v)),
        2 => carried(spec_read_u16(data, pos), |v: u16| ValueModel::U16(v)),
        3 => carried(spec_read_i16(data, pos), |v: i16| ValueModel::I16(v)),
        4 => carried(spec_read_u32(data, pos), |v: u32| ValueModel::U32(v)),
        5 => carried(spec_read_i32(data, pos), |v: i32| ValueModel::I32(v)),
        6 => carried(spec_read_u32(data, pos), |v: u32| ValueModel::F32(v)),
        7 => carried(spec_read_bool(data, pos), |v: bool| ValueModel::Bool(v)),
        8 => carried(spec_read_string(data, pos), |v: Seq<char>| ValueModel::String(v)),
        9 => if depth == 0 {
            Err(DecodeError::ResourceLimitExceeded)
        } else {
            match spec_read_u32(data, pos) {
                Err(e) => Err(e),
                Ok((element_type, at_count)) => match spec_read_u64(data, at_count) {
                    Err(e) => Err(e),
                    Ok((count, at_first)) => carried(
                        spec_read_values(
                            data,
                            at_first,
                            element_type,
                            count as nat,
                            (depth - 1) as nat,
                        ),
                        |vs: Seq<ValueModel>| ValueModel::Array(vs),
                    ),
                },
            }
        },
        10 => carried(spec_read_u64(data, pos), |v: u64| ValueModel::U64(v)),
        11 => carried(spec_read_i64(data, pos), |v: i64| ValueModel::I64(v)),
        12 => carried(spec_read_u64(data, pos), |v: u64| ValueModel::F64(v)),
        _ => Err(DecodeError::UnknownType(value_type)),
    }
}

/// `count` values of kind `element_type`, one behind the other from `pos`.
/// The first failure among them is the failure of the run.
pub open spec fn spec_read_values(
    data: Seq<u8>,
    pos: int,
    element_type: u32,
    count: nat,
    depth: nat,
) -> Result<(Seq<ValueModel>, int), DecodeError>
    decreases depth, count + 1,
{
    if count == 0 {
        Ok((Seq::empty(), pos))
    } else {
        match spec_read_values(data, pos, element_type, (count - 1) as nat, depth) {
            Err(e) => Err(e),
            Ok((front, at_last)) => match spec_read_value(data, at_last, element_type, depth) {
                Err(e) => Err(e),
                Ok((v, next)) => Ok((front.push(v), next)),
            },
        }
    }
}

/// Once a run of values has failed, every longer run fails in the same way.
pub proof fn lemma_values_failure_persists(
    data: Seq<u8>,
    pos: int,
    element_type: u32,
    shorter: nat,
    longer: nat,
    depth: nat,
)
    requires
        shorter <= longer,
        spec_read_values(data, pos, element_type, shorter, depth) is Err,
    ensures
        spec_read_values(data, pos, element_type, longer, depth) == spec_read_values(
            data,
            pos,
            element_type,
            shorter,
            depth,
        ),
    decreases longer,
{
    if shorter < longer {
        lemma_values_failure_persists(
            data,
            pos,
            element_type,
            shorter,
            (longer - 1) as nat,
            depth,
        );
    }
}

/// A value that decodes ends behind its start and inside the input.
pub proof fn lemma_value_extent(data: Seq<u8>, pos: int, value_type: u32, depth: nat)
    ensures
        spec_read_value(data, pos, value_type, depth) matches Ok((_, next)) ==> 0 <= pos < next
            <= data.len(),
    decreases depth, 0nat,
{
    if value_type == 9 && depth > 0 {
        if let Ok((element_type, at_count)) = spec_read_u32(data, pos) {
            if let Ok((count, at_first)) = spec_read_u64(data, at_count) {
                lemma_values_extent(data, at_first, element_type, count as nat, (depth - 1) as nat);
            }
        }
    }
}

/// A run of values that decodes ends at or behind its start. It ends inside
/// the input when it starts there, and also when it is not empty.
pub proof fn lemma_values_extent(
    data: Seq<u8>,
    pos: int,
    element_type: u32,
    count: nat,
    depth: nat,
)
    ensures
        spec_read_values(data, pos, element_type, count, depth) matches Ok((_, next)) ==> {
            &&& pos <= next
            &&& pos <= data.len() || count > 0 ==> next <= data.len()
        },
    decreases depth, count + 1,
{
    if count > 0 {
        lemma_values_extent(data, pos, element_type, (count - 1) as nat, depth);
        if let Ok((_, at_last)) = spec_read_values(
            data,
            pos,
            element_type,
            (count - 1) as nat,
            depth,
        ) {
            lemma_value_extent(data, at_last, element_type, depth);
        }
    }
}

/// A decoded value is of the kind that was asked for.
pub proof fn lemma_value_kind(data: Seq<u8>, pos: int, value_type: u32, depth: nat)
    ensures
        spec_read_value(data, pos, value_type, depth) matches Ok((v, _)) ==> value_tag(v)
            == value_type,
{
}

/// A run of `count` values that decodes has exactly `count` elements, each of
/// the one element kind.
pub proof fn lemma_values_uniform(
    data: Seq<u8>,
    pos: int,
    element_type: u32,
    count: nat,
    depth: nat,
)
    ensures
        spec_read_values(data, pos, element_type, count, depth) matches Ok((vs, _)) ==> {
            &&& vs.len() == count
            &&& forall|i: int| 0 <= i < count ==> value_tag(#[trigger] vs[i]) == element_type
        },
    decreases count,
{
    if count > 0 {
        lemma_values_uniform(data, pos, element_type, (count - 1) as nat, depth);
        if let Ok((front, at_last)) = spec_read_values(
            data,
            pos,
            element_type,
            (count - 1) as nat,
            depth,
        ) {
            lemma_value_kind(data, at_last, element_type, depth);
        }
    }
}

/// An array that decodes holds exactly as many elements as its header
/// declares, and every element is of the element kind that the header names
/// once for all of them. This holds for every element kind, arrays included.
pub proof fn lemma_array_is_homogeneous(data: Seq<u8>, pos: int, depth: nat)
    ensures
        spec_read_value(data, pos, 9, depth) matches Ok((v, _)) ==> {
            &&& spec_read_u32(data, pos) matches Ok((element_type, at_count))
            &&& spec_read_u64(data, at_count) matches Ok((count, _))
            &&& v matches ValueModel::Array(items)
            &&& items.len() == count
            &&& forall|i: int| 0 <= i < count ==> value_tag(#[trigger] items[i]) == element_type
        },
{
    if depth > 0 {
        if let Ok((element_type, at_count)) = spec_read_u32(data, pos) {
            if let Ok((count, at_first)) = spec_read_u64(data, at_count) {
                lemma_values_uniform(
                    data,
                    at_first,
                    element_type,
                    count as nat,
                    (depth - 1) as nat,
                );
            }
        }
    }
}

impl Clone for GGUFValue {
    fn clone(&self) -> (copy: Self)
        ensures
            copy@ == self@,
    {
        self.duplicate()
    }
}

impl GGUFValue {
    /// A copy with the same content.
    fn duplicate(&self) -> (copy: Self)
        ensures
            copy@ == self@,
        decreases self,
    {
        match self {
            GGUFValue::U8(v) => GGUFValue::U8(*v),
            GGUFValue::I8(v) => GGUFValue::I8(*v),
            GGUFValue::U16(v) => GGUFValue::U16(*v),
            GGUFValue::I16(v) => GGUFValue::I16(*v),
            GGUFValue::U32(v) => GGUFValue::U32(*v),
            GGUFValue::I32(v) => GGUFValue::I32(*v),
            GGUFValue::F32(v) => GGUFValue::F32(*v),
            GGUFValue::U64(v) => GGUFValue::U64(*v),
            GGUFValue::I64(v) => GGUFValue::I64(*v),
            GGUFValue::F64(v) => GGUFValue::F64(*v),
            GGUFValue::Bool(v) => GGUFValue::Bool(*v),
            GGUFValue::String(s) => GGUFValue::String(s.clone()),
            GGUFValue::Array(items) => {
                let mut copies: Vec<GGUFValue> = Vec::new();
                let mut i: usize = 0;
                while i < items.len()
                    invariant
                        *self == GGUFValue::Array(*items),
                        i <= items@.len(),
                        copies@.len() == i,
                        forall|j: int| 0 <= j < i ==> copies@[j]@ == items@[j]@,
                    decreases items@.len() - i,
                {
                    proof {
                        vstd::std_specs::vec::axiom_vec_index_decreases(*items, i as int);
                        assert(self->Array_0 == *items);
                    }
                    let copy = items[i].duplicate();
                    copies.push(copy);
                    i += 1;
                }
                proof {
                    lemma_array_view(*items);
                    lemma_array_view(copies);
                    assert(values_view(copies@) =~= values_view(items@));
                }
                GGUFValue::Array(copies)
            },
        }
    }
}

impl GGUFValue {
    /// The wire tag of this value's kind.
    pub fn type_tag(&self) -> (tag: u32)
        ensures
            tag == value_tag(self@),
            tag <= 12,
    {
        match self {
            GGUFValue::U8(_) => 0,
            GGUFValue::I8(_) => 1,
            GGUFValue::U16(_) => 2,
            GGUFValue::I16(_) => 3,
            GGUFValue::U32(_) => 4,
            GGUFValue::I32(_) => 5,
            GGUFValue::F32(_) => 6,
            GGUFValue::Bool(_) => 7,
            GGUFValue::String(_) => 8,
            GGUFValue::Array(_) => 9,
            GGUFValue::U64(_) => 10,
            GGUFValue::I64(_) => 11,
            GGUFValue::F64(_) => 12,
        }
    }
}

/// Decodes one value of kind `value_type` at `pos`, following arrays up to
/// [`MAX_ARRAY_DEPTH`] levels.
pub fn read_value(data: &[u8], pos: usize, value_type: u32) -> (r: Result<
    (GGUFValue, usize),
    DecodeError,
>)
    ensures
        viewed(r) == spec_read_value(data@, pos as int, value_type, MAX_ARRAY_DEPTH as nat),
        value_type > 12 ==> r == Err::<(GGUFValue, usize), DecodeError>(
            DecodeError::UnknownType(value_type),
        ),
        r matches Ok((v, _)) ==> value_tag(v@) == value_type,
{
    proof {
        lemma_value_kind(data@, pos as int, value_type, MAX_ARRAY_DEPTH as nat);
    }
    read_value_nested(data, pos, value_type, MAX_ARRAY_DEPTH)
}

/// Decodes one value of kind `value_type` at `pos`, entering at most `depth`
/// arrays inside one another.
#[verifier::loop_isolation(false)]
pub fn read_value_nested(data: &[u8], pos: usize, value_type: u32, depth: u32) -> (r: Result<
    (GGUFValue, usize),
    DecodeError,
>)
    ensures
        viewed(r) == spec_read_value(data@, pos as int, value_type, depth as nat),
        value_type > 12 ==> r == Err::<(GGUFValue, usize), DecodeError>(
            DecodeError::UnknownType(value_type),
        ),
    decreases depth,
{
    match value_type {
        0 => {
            let (v, next) = read_u8(data, pos)?;
            Ok((GGUFValue::U8(v), next))
        },
        1 => {
            let (v, next) = read_i8(data, pos)?;
            Ok((GGUFValue::I8(v), next))
        },
        2 => {
            let (v, next) = read_u16(data, pos)?;
            Ok((GGUFValue::U16(v), next))
        },
        3 => {
            let (v, next) = read_i16(data, pos)?;
            Ok((GGUFValue::I16(v), next))
        },
        4 => {
            let (v, next) = read_u32(data, pos)?;
            Ok((GGUFValue::U32(v), next))
        },
        5 => {
            let (v, next) = read_i32(data, pos)?;
            Ok((GGUFValue::I32(v), next))
        },
        6 => {
            let (bits, next) = read_u32(data, pos)?;
            Ok((GGUFValue::F32(bits), next))
        },
        7 => {
            let (v, next) = read_bool(data, pos)?;
            Ok((GGUFValue::Bool(v), next))
        },
        8 => {
            let (v, next) = read_string(data, pos)?;
            Ok((GGUFValue::String(v), next))
        },
        9 => {
            if depth == 0 {
                return Err(DecodeError::ResourceLimitExceeded);
            }
            let (element_type, at_count) = read_u32(data, pos)?;
            let (count, at_first) = read_u64(data, at_count)?;
            let mut items: Vec<GGUFValue> = Vec::new();
            let mut cur: usize = at_first;
            let mut done: u64 = 0;
            assert(values_view(items@) =~= Seq::empty());
            while done < count
                invariant
                    done <= count,
                    depth > 0,
                    spec_read_values(
                        data@,
                        at_first as int,
                        element_type,
                        done as nat,
                        (depth - 1) as nat,
                    ) == Ok::<(Seq<ValueModel>, int), DecodeError>(
                        (values_view(items@), cur as int),
                    ),
                decreases count - done,
            {
                match read_value_nested(data, cur, element_type, depth - 1) {
                    Ok((v, next)) => {
                        proof {
                            assert(values_view(items@).push(v@) =~= values_view(items@.push(v)));
                        }
                        items.push(v);
                        cur = next;
                    },
                    Err(e) => {
                        proof {
                            lemma_values_failure_persists(
                                data@,
                                at_first as int,
                                element_type,
                                (done + 1) as nat,
                                count as nat,
                                (depth - 1) as nat,
                            );
                        }
                        return Err(e);
                    },
                }
                done += 1;
            }
            proof {
                lemma_array_view(items);
            }
            Ok((GGUFValue::Array(items), cur))
        },
        10 => {
            let (v, next) = read_u64(data, pos)?;
            Ok((GGUFValue::U64(v), next))
        },
        11 => {
            let (v, next) = read_i64(data, pos)?;
            Ok((GGUFValue::I64(v), next))
        },
        12 => {
            let (bits, next) = read_u64(data, pos)?;
            Ok((GGUFValue::F64(bits), next))
        },
        _ => Err(DecodeError::UnknownType(value_type)),
    }
}

} // verus!
