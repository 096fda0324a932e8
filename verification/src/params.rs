//! Model parameter records: the tagged scalar/array values a fitted model
//! exposes, their byte sizes, their C-type projection, and their little-endian
//! binary encoding.
//!
//! A float-valued parameter is held as the IEEE-754 binary64 bit pattern of
//! the value (`u64`); its little-endian encoding is byte-for-byte the encoding
//! of the float itself, so the emitted blob is identical.

use vstd::prelude::*;
use vstd::bytes::*;
use vstd::slice::slice_subrange;

verus! {

/// The numeric domain of a model's input or output.
pub enum ModelDataType {
    Int,
    Float,
}

impl ModelDataType {
    /// C type used when emitting lookup code for a value of this domain.
    pub fn c_type(&self) -> (r: &'static str)
        ensures
            matches!(self, ModelDataType::Int) ==> r@ == "uint64_t"@,
            matches!(self, ModelDataType::Float) ==> r@ == "double"@,
    {
        match self {
            ModelDataType::Int => "uint64_t",
            ModelDataType::Float => "double",
        }
    }
}

/// One fitted parameter: a scalar or an array of one of the four element
/// widths.  `Float` and `FloatArray` hold IEEE-754 binary64 bit patterns.
pub enum ModelParam {
    Int(u64),
    Float(u64),
    ShortArray(Vec<u16>),
    IntArray(Vec<u64>),
    Int32Array(Vec<u32>),
    FloatArray(Vec<u64>),
}

/// Size in bytes of a parameter's binary encoding: 8 for scalars, the element
/// width times the length for arrays.
pub open spec fn spec_param_size(p: ModelParam) -> int {
    match p {
        ModelParam::Int(_) => 8,
        ModelParam::Float(_) => 8,
        ModelParam::ShortArray(a) => 2 * a@.len() as int,
        ModelParam::IntArray(a) => 8 * a@.len() as int,
        ModelParam::Int32Array(a) => 4 * a@.len() as int,
        ModelParam::FloatArray(a) => 8 * a@.len() as int,
    }
}

/// Number of scalar elements a parameter carries.
pub open spec fn spec_param_len(p: ModelParam) -> int {
    match p {
        ModelParam::Int(_) => 1,
        ModelParam::Float(_) => 1,
        ModelParam::ShortArray(a) => a@.len() as int,
        ModelParam::IntArray(a) => a@.len() as int,
        ModelParam::Int32Array(a) => a@.len() as int,
        ModelParam::FloatArray(a) => a@.len() as int,
    }
}

impl ModelParam {
    /// Size in bytes of this parameter in the emitted blob.
    pub fn size(&self) -> (r: usize)
        requires
            spec_param_size(*self) <= usize::MAX,
        ensures
            r == spec_param_size(*self),
    {
        match self {
            ModelParam::Int(_) => 8,
            ModelParam::Float(_) => 8,
            ModelParam::ShortArray(a) => 2 * a.len(),
            ModelParam::IntArray(a) => 8 * a.len(),
            ModelParam::Int32Array(a) => 4 * a.len(),
            ModelParam::FloatArray(a) => 8 * a.len(),
        }
    }

    /// Number of scalar elements this parameter carries.
    pub fn len(&self) -> (r: usize)
        ensures
            r == spec_param_len(*self),
    {
        match self {
            ModelParam::Int(_) => 1,
            ModelParam::Float(_) => 1,
            ModelParam::ShortArray(a) => a.len(),
            ModelParam::IntArray(a) => a.len(),
            ModelParam::Int32Array(a) => a.len(),
            ModelParam::FloatArray(a) => a.len(),
        }
    }

    /// Whether this parameter is an array (declared with a `[]` modifier).
    pub fn is_array(&self) -> (r: bool)
        ensures
            r == !(self is Int || self is Float),
    {
        match self {
            ModelParam::Int(_) => false,
            ModelParam::Float(_) => false,
            ModelParam::ShortArray(_) => true,
            ModelParam::IntArray(_) => true,
            ModelParam::Int32Array(_) => true,
            ModelParam::FloatArray(_) => true,
        }
    }

    /// C element type for this parameter.
    pub fn c_type(&self) -> (r: &'static str)
        ensures
            (self is Int || self is IntArray) ==> r@ == "uint64_t"@,
            (self is Float || self is FloatArray) ==> r@ == "double"@,
            self is ShortArray ==> r@ == "short"@,
            self is Int32Array ==> r@ == "uint32_t"@,
    {
        match self {
            ModelParam::Int(_) => "uint64_t",
            ModelParam::Float(_) => "double",
            ModelParam::ShortArray(_) => "short",
            ModelParam::IntArray(_) => "uint64_t",
            ModelParam::Int32Array(_) => "uint32_t",
            ModelParam::FloatArray(_) => "double",
        }
    }

    /// C declaration modifier: `[]` for arrays, nothing for scalars.
    pub fn c_type_mod(&self) -> (r: &'static str)
        ensures
            (self is Int || self is Float) ==> r@ == ""@,
            !(self is Int || self is Float) ==> r@ == "[]"@,
    {
        match self {
            ModelParam::Int(_) => "",
            ModelParam::Float(_) => "",
            ModelParam::ShortArray(_) => "[]",
            ModelParam::IntArray(_) => "[]",
            ModelParam::Int32Array(_) => "[]",
            ModelParam::FloatArray(_) => "[]",
        }
    }

    /// Whether two parameters carry the same variant of value.
    pub fn is_same_type(&self, other: &ModelParam) -> (r: bool)
        ensures
            r == ((self is Int && other is Int) || (self is Float && other is Float)
                || (self is ShortArray && other is ShortArray)
                || (self is IntArray && other is IntArray)
                || (self is Int32Array && other is Int32Array)
                || (self is FloatArray && other is FloatArray)),
    {
        match (self, other) {
            (ModelParam::Int(_), ModelParam::Int(_)) => true,
            (ModelParam::Float(_), ModelParam::Float(_)) => true,
            (ModelParam::ShortArray(_), ModelParam::ShortArray(_)) => true,
            (ModelParam::IntArray(_), ModelParam::IntArray(_)) => true,
            (ModelParam::Int32Array(_), ModelParam::Int32Array(_)) => true,
            (ModelParam::FloatArray(_), ModelParam::FloatArray(_)) => true,
            _ => false,
        }
    }
}

/// Little-endian encoding of a sequence of `u16` values, element after
/// element with no length prefix.
pub open spec fn u16s_le(s: Seq<u16>) -> Seq<u8>
    decreases s.len(),
{
    if s.len() == 0 {
        Seq::empty()
    } else {
        u16s_le(s.drop_last()) + spec_u16_to_le_bytes(s.last())
    }
}

/// Little-endian encoding of a sequence of `u32` values.
pub open spec fn u32s_le(s: Seq<u32>) -> Seq<u8>
    decreases s.len(),
{
    if s.len() == 0 {
        Seq::empty()
    } else {
        u32s_le(s.drop_last()) + spec_u32_to_le_bytes(s.last())
    }
}

/// Little-endian encoding of a sequence of `u64` values.
pub open spec fn u64s_le(s: Seq<u64>) -> Seq<u8>
    decreases s.len(),
{
    if s.len() == 0 {
        Seq::empty()
    } else {
        u64s_le(s.drop_last()) + spec_u64_to_le_bytes(s.last())
    }
}

/// The binary encoding of one parameter: scalars as one little-endian value,
/// arrays as their elements concatenated with no length prefix.
pub open spec fn spec_param_bytes(p: ModelParam) -> Seq<u8> {
    match p {
        ModelParam::Int(v) => spec_u64_to_le_bytes(v),
        ModelParam::Float(v) => spec_u64_to_le_bytes(v),
        ModelParam::ShortArray(a) => u16s_le(a@),
        ModelParam::IntArray(a) => u64s_le(a@),
        ModelParam::Int32Array(a) => u32s_le(a@),
        ModelParam::FloatArray(a) => u64s_le(a@),
    }
}

/// Two parameters have the same shape when a reader that knows the variant
/// and the element count cannot tell them apart without the values.
pub open spec fn same_shape(a: ModelParam, b: ModelParam) -> bool {
    &&& (a is Int <==> b is Int)
    &&& (a is Float <==> b is Float)
    &&& (a is ShortArray <==> b is ShortArray)
    &&& (a is IntArray <==> b is IntArray)
    &&& (a is Int32Array <==> b is Int32Array)
    &&& (a is FloatArray <==> b is FloatArray)
    &&& spec_param_len(a) == spec_param_len(b)
}

proof fn lemma_u16s_le_len(s: Seq<u16>)
    ensures
        u16s_le(s).len() == 2 * s.len(),
    decreases s.len(),
{
    lemma_auto_spec_u16_to_from_le_bytes();
    if s.len() > 0 {
        lemma_u16s_le_len(s.drop_last());
    }
}

proof fn lemma_u32s_le_len(s: Seq<u32>)
    ensures
        u32s_le(s).len() == 4 * s.len(),
    decreases s.len(),
{
    lemma_auto_spec_u32_to_from_le_bytes();
    if s.len() > 0 {
        lemma_u32s_le_len(s.drop_last());
    }
}

proof fn lemma_u64s_le_len(s: Seq<u64>)
    ensures
        u64s_le(s).len() == 8 * s.len(),
    decreases s.len(),
{
    lemma_auto_spec_u64_to_from_le_bytes();
    if s.len() > 0 {
        lemma_u64s_le_len(s.drop_last());
    }
}

/// The encoding of a parameter is exactly as long as `size` reports.
pub proof fn lemma_param_bytes_len(p: ModelParam)
    ensures
        spec_param_bytes(p).len() == spec_param_size(p),
{
    match p {
        ModelParam::Int(_) | ModelParam::Float(_) => {
            lemma_auto_spec_u64_to_from_le_bytes();
        },
        ModelParam::ShortArray(a) => lemma_u16s_le_len(a@),
        ModelParam::IntArray(a) => lemma_u64s_le_len(a@),
        ModelParam::Int32Array(a) => lemma_u32s_le_len(a@),
        ModelParam::FloatArray(a) => lemma_u64s_le_len(a@),
    }
}

proof fn lemma_u16s_le_injective(s1: Seq<u16>, s2: Seq<u16>)
    requires
        s1.len() == s2.len(),
        u16s_le(s1) == u16s_le(s2),
    ensures
        s1 == s2,
    decreases s1.len(),
{
    lemma_auto_spec_u16_to_from_le_bytes();
    if s1.len() > 0 {
        lemma_u16s_le_len(s1.drop_last());
        lemma_u16s_le_len(s2.drop_last());
        let n = u16s_le(s1).len();
        assert(u16s_le(s1.drop_last()) =~= u16s_le(s1).subrange(0, n - 2));
        assert(u16s_le(s2.drop_last()) =~= u16s_le(s2).subrange(0, n - 2));
        assert(spec_u16_to_le_bytes(s1.last()) =~= u16s_le(s1).subrange(n - 2, n as int));
        assert(spec_u16_to_le_bytes(s2.last()) =~= u16s_le(s2).subrange(n - 2, n as int));
        assert(s1.last() == spec_u16_from_le_bytes(spec_u16_to_le_bytes(s1.last())));
        assert(s1.last() == s2.last());
        lemma_u16s_le_injective(s1.drop_last(), s2.drop_last());
        assert(s1 =~= s1.drop_last().push(s1.last()));
        assert(s2 =~= s2.drop_last().push(s2.last()));
    } else {
        assert(s1 =~= s2);
    }
}

proof fn lemma_u32s_le_injective(s1: Seq<u32>, s2: Seq<u32>)
    requires
        s1.len() == s2.len(),
        u32s_le(s1) == u32s_le(s2),
    ensures
        s1 == s2,
    decreases s1.len(),
{
    lemma_auto_spec_u32_to_from_le_bytes();
    if s1.len() > 0 {
        lemma_u32s_le_len(s1.drop_last());
        lemma_u32s_le_len(s2.drop_last());
        let n = u32s_le(s1).len();
        assert(u32s_le(s1.drop_last()) =~= u32s_le(s1).subrange(0, n - 4));
        assert(u32s_le(s2.drop_last()) =~= u32s_le(s2).subrange(0, n - 4));
        assert(spec_u32_to_le_bytes(s1.last()) =~= u32s_le(s1).subrange(n - 4, n as int));
        assert(spec_u32_to_le_bytes(s2.last()) =~= u32s_le(s2).subrange(n - 4, n as int));
        assert(s1.last() == spec_u32_from_le_bytes(spec_u32_to_le_bytes(s1.last())));
        assert(s1.last() == s2.last());
        lemma_u32s_le_injective(s1.drop_last(), s2.drop_last());
        assert(s1 =~= s1.drop_last().push(s1.last()));
        assert(s2 =~= s2.drop_last().push(s2.last()));
    } else {
        assert(s1 =~= s2);
    }
}

proof fn lemma_u64s_le_injective(s1: Seq<u64>, s2: Seq<u64>)
    requires
        s1.len() == s2.len(),
        u64s_le(s1) == u64s_le(s2),
    ensures
        s1 == s2,
    decreases s1.len(),
{
    lemma_auto_spec_u64_to_from_le_bytes();
    if s1.len() > 0 {
        lemma_u64s_le_len(s1.drop_last());
        lemma_u64s_le_len(s2.drop_last());
        let n = u64s_le(s1).len();
        assert(u64s_le(s1.drop_last()) =~= u64s_le(s1).subrange(0, n - 8));
        assert(u64s_le(s2.drop_last()) =~= u64s_le(s2).subrange(0, n - 8));
        assert(spec_u64_to_le_bytes(s1.last()) =~= u64s_le(s1).subrange(n - 8, n as int));
        assert(spec_u64_to_le_bytes(s2.last()) =~= u64s_le(s2).subrange(n - 8, n as int));
        assert(s1.last() == spec_u64_from_le_bytes(spec_u64_to_le_bytes(s1.last())));
        assert(s1.last() == s2.last());
        lemma_u64s_le_injective(s1.drop_last(), s2.drop_last());
        assert(s1 =~= s1.drop_last().push(s1.last()));
        assert(s2 =~= s2.drop_last().push(s2.last()));
    } else {
        assert(s1 =~= s2);
    }
}

/// The values two parameters carry, compared bit for bit: equal variants,
/// equal scalars, and element-for-element equal arrays.
pub open spec fn param_values_eq(a: ModelParam, b: ModelParam) -> bool {
    match (a, b) {
        (ModelParam::Int(v1), ModelParam::Int(v2)) => v1 == v2,
        (ModelParam::Float(v1), ModelParam::Float(v2)) => v1 == v2,
        (ModelParam::ShortArray(a1), ModelParam::ShortArray(a2)) => a1@ == a2@,
        (ModelParam::IntArray(a1), ModelParam::IntArray(a2)) => a1@ == a2@,
        (ModelParam::Int32Array(a1), ModelParam::Int32Array(a2)) => a1@ == a2@,
        (ModelParam::FloatArray(a1), ModelParam::FloatArray(a2)) => a1@ == a2@,
        _ => false,
    }
}

/// A reader that knows a parameter's shape recovers its values from the blob:
/// two same-shaped parameters with the same encoding carry the same values,
/// bit for bit.
pub proof fn lemma_param_encoding_faithful(p1: ModelParam, p2: ModelParam)
    requires
        same_shape(p1, p2),
        spec_param_bytes(p1) == spec_param_bytes(p2),
    ensures
        param_values_eq(p1, p2),
{
    lemma_auto_spec_u64_to_from_le_bytes();
    match (p1, p2) {
        (ModelParam::ShortArray(a1), ModelParam::ShortArray(a2)) => {
            lemma_u16s_le_injective(a1@, a2@);
            assert(a1@ == a2@);
        },
        (ModelParam::IntArray(a1), ModelParam::IntArray(a2)) => {
            lemma_u64s_le_injective(a1@, a2@);
        },
        (ModelParam::Int32Array(a1), ModelParam::Int32Array(a2)) => {
            lemma_u32s_le_injective(a1@, a2@);
        },
        (ModelParam::FloatArray(a1), ModelParam::FloatArray(a2)) => {
            lemma_u64s_le_injective(a1@, a2@);
        },
        _ => {},
    }
}

impl ModelParam {
    /// Append this parameter's little-endian encoding to `target`.
    pub fn write_to(&self, target: &mut Vec<u8>)
        ensures
            final(target)@ == old(target)@ + spec_param_bytes(*self),
    {
        match self {
            ModelParam::Int(v) => push_u64_le(target, *v),
            ModelParam::Float(v) => push_u64_le(target, *v),
            ModelParam::ShortArray(arr) => {
                let ghost orig = target@;
                let mut i: usize = 0;
                while i < arr.len()
                    invariant
                        i <= arr.len(),
                        target@ == orig + u16s_le(arr@.take(i as int)),
                    decreases arr.len() - i,
                {
                    push_u16_le(target, arr[i]);
                    proof {
                        assert(arr@.take(i + 1).drop_last() =~= arr@.take(i as int));
                        assert(arr@.take(i + 1).last() == arr@[i as int]);
                    }
                    i += 1;
                }
                proof {
                    assert(arr@.take(arr@.len() as int) =~= arr@);
                }
            },
            ModelParam::IntArray(arr) => {
                let ghost orig = target@;
                let mut i: usize = 0;
                while i < arr.len()
                    invariant
                        i <= arr.len(),
                        target@ == orig + u64s_le(arr@.take(i as int)),
                    decreases arr.len() - i,
                {
                    push_u64_le(target, arr[i]);
                    proof {
                        assert(arr@.take(i + 1).drop_last() =~= arr@.take(i as int));
                        assert(arr@.take(i + 1).last() == arr@[i as int]);
                    }
                    i += 1;
                }
                proof {
                    assert(arr@.take(arr@.len() as int) =~= arr@);
                }
            },
            ModelParam::Int32Array(arr) => {
                let ghost orig = target@;
                let mut i: usize = 0;
                while i < arr.len()
                    invariant
                        i <= arr.len(),
                        target@ == orig + u32s_le(arr@.take(i as int)),
                    decreases arr.len() - i,
                {
                    push_u32_le(target, arr[i]);
                    proof {
                        assert(arr@.take(i + 1).drop_last() =~= arr@.take(i as int));
                        assert(arr@.take(i + 1).last() == arr@[i as int]);
                    }
                    i += 1;
                }
                proof {
                    assert(arr@.take(arr@.len() as int) =~= arr@);
                }
            },
            ModelParam::FloatArray(arr) => {
                let ghost orig = target@;
                let mut i: usize = 0;
                while i < arr.len()
                    invariant
                        i <= arr.len(),
                        target@ == orig + u64s_le(arr@.take(i as int)),
                    decreases arr.len() - i,
                {
                    push_u64_le(target, arr[i]);
                    proof {
                        assert(arr@.take(i + 1).drop_last() =~= arr@.take(i as int));
                        assert(arr@.take(i + 1).last() == arr@[i as int]);
                    }
                    i += 1;
                }
                proof {
                    assert(arr@.take(arr@.len() as int) =~= arr@);
                }
            },
        }
    }
}

/// Append one `u16` to `out` in little-endian order.
pub fn push_u16_le(out: &mut Vec<u8>, v: u16)
    ensures
        final(out)@ == old(out)@ + spec_u16_to_le_bytes(v),
{
    let mut bytes = u16_to_le_bytes(v);
    out.append(&mut bytes);
}

/// Append one `u32` to `out` in little-endian order.
pub fn push_u32_le(out: &mut Vec<u8>, v: u32)
    ensures
        final(out)@ == old(out)@ + spec_u32_to_le_bytes(v),
{
    let mut bytes = u32_to_le_bytes(v);
    out.append(&mut bytes);
}

/// Append one `u64` to `out` in little-endian order.
pub fn push_u64_le(out: &mut Vec<u8>, v: u64)
    ensures
        final(out)@ == old(out)@ + spec_u64_to_le_bytes(v),
{
    let mut bytes = u64_to_le_bytes(v);
    out.append(&mut bytes);
}

/// Read back one `u64` written at `off` in little-endian order.
pub fn read_u64_le(bytes: &[u8], off: usize) -> (r: u64)
    requires
        off + 8 <= bytes@.len(),
    ensures
        r == spec_u64_from_le_bytes(bytes@.subrange(off as int, off + 8)),
{
    let n = bytes.len();
    proof {
        assert(off + 8 <= n);
    }
    u64_from_le_bytes(slice_subrange(bytes, off, off + 8))
}

/// Read back one `u32` written at `off` in little-endian order.
pub fn read_u32_le(bytes: &[u8], off: usize) -> (r: u32)
    requires
        off + 4 <= bytes@.len(),
    ensures
        r == spec_u32_from_le_bytes(bytes@.subrange(off as int, off + 4)),
{
    let n = bytes.len();
    proof {
        assert(off + 4 <= n);
    }
    u32_from_le_bytes(slice_subrange(bytes, off, off + 4))
}

/// Read back one `u16` written at `off` in little-endian order.
pub fn read_u16_le(bytes: &[u8], off: usize) -> (r: u16)
    requires
        off + 2 <= bytes@.len(),
    ensures
        r == spec_u16_from_le_bytes(bytes@.subrange(off as int, off + 2)),
{
    let n = bytes.len();
    proof {
        assert(off + 2 <= n);
    }
    u16_from_le_bytes(slice_subrange(bytes, off, off + 2))
}


/// The decimal digit character for `d`.
pub open spec fn dec_digit(d: int) -> char {
    if d == 0 {
        '0'
    } else if d == 1 {
        '1'
    } else if d == 2 {
        '2'
    } else if d == 3 {
        '3'
    } else if d == 4 {
        '4'
    } else if d == 5 {
        '5'
    } else if d == 6 {
        '6'
    } else if d == 7 {
        '7'
    } else if d == 8 {
        '8'
    } else {
        '9'
    }
}

/// The decimal rendering of a non-negative number, most significant digit
/// first, with no leading zeros (`0` renders as `"0"`).
pub open spec fn spec_dec(v: int) -> Seq<char>
    recommends
        v >= 0,
    decreases v,
{
    if v < 10 {
        seq![dec_digit(v)]
    } else {
        spec_dec(v / 10) + seq![dec_digit(v % 10)]
    }
}

/// The rendering of array elements: decimal values, each followed by
/// `suffix`, joined with `", "`.
pub open spec fn spec_dec_join(s: Seq<int>, suffix: Seq<char>) -> Seq<char>
    decreases s.len(),
{
    if s.len() == 0 {
        Seq::empty()
    } else if s.len() == 1 {
        spec_dec(s[0]) + suffix
    } else {
        spec_dec_join(s.drop_last(), suffix) + ", "@ + spec_dec(s.last()) + suffix
    }
}

/// The C literal for a parameter: scalar integers as `<v>UL`, arrays as
/// `{ <items> }` with `UL` on 64- and 32-bit elements.  Float literals need
/// the platform float formatter, so the two float variants stay outside the
/// verified core.
pub open spec fn spec_c_val(p: ModelParam) -> Seq<char>
    recommends
        !(p is Float || p is FloatArray),
{
    match p {
        ModelParam::Int(v) => spec_dec(v as int) + "UL"@,
        ModelParam::ShortArray(a) => "{ "@ + spec_dec_join(
            a@.map_values(|x: u16| x as int),
            ""@,
        ) + " }"@,
        ModelParam::IntArray(a) => "{ "@ + spec_dec_join(
            a@.map_values(|x: u64| x as int),
            "UL"@,
        ) + " }"@,
        ModelParam::Int32Array(a) => "{ "@ + spec_dec_join(
            a@.map_values(|x: u32| x as int),
            "UL"@,
        ) + " }"@,
        _ => Seq::empty(),
    }
}

/// The one-character string for a decimal digit.
fn digit_str(d: u64) -> (r: &'static str)
    requires
        d < 10,
    ensures
        r@ == seq![dec_digit(d as int)],
{
    proof {
        reveal_strlit("0");
        reveal_strlit("1");
        reveal_strlit("2");
        reveal_strlit("3");
        reveal_strlit("4");
        reveal_strlit("5");
        reveal_strlit("6");
        reveal_strlit("7");
        reveal_strlit("8");
        reveal_strlit("9");
    }
    let r = match d {
        0 => "0",
        1 => "1",
        2 => "2",
        3 => "3",
        4 => "4",
        5 => "5",
        6 => "6",
        7 => "7",
        8 => "8",
        _ => "9",
    };
    proof {
        assert(r@ =~= seq![dec_digit(d as int)]);
    }
    r
}

/// Render a number in decimal, most significant digit first.
pub fn u64_to_decimal(v: u64) -> (r: String)
    ensures
        r@ == spec_dec(v as int),
    decreases v,
{
    if v < 10 {
        digit_str(v).to_owned()
    } else {
        let mut s = u64_to_decimal(v / 10);
        s.append(digit_str(v % 10));
        proof {
            assert(s@ =~= spec_dec(v as int));
        }
        s
    }
}

impl ModelParam {
    /// The C literal for this parameter.  The two float variants are
    /// excluded: rendering a float literal takes the platform float
    /// formatter, which sits outside the verified core.
    pub fn c_val(&self) -> (r: String)
        requires
            !(*self is Float || *self is FloatArray),
        ensures
            r@ == spec_c_val(*self),
    {
        match self {
            ModelParam::Int(v) => {
                let mut s = u64_to_decimal(*v);
                s.append("UL");
                proof {
                    assert(s@ =~= spec_c_val(*self));
                }
                s
            },
            ModelParam::ShortArray(a) => {
                let ghost m = a@.map_values(|x: u16| x as int);
                proof {
                    reveal_strlit("");
                }
                let mut s = String::from_str("{ ");
                let mut i: usize = 0;
                while i < a.len()
                    invariant
                        i <= a@.len(),
                        m == a@.map_values(|x: u16| x as int),
                        s@ == "{ "@ + spec_dec_join(m.take(i as int), ""@),
                    decreases a@.len() - i,
                {
                    if i > 0 {
                        s.append(", ");
                    }
                    let d = u64_to_decimal(a[i] as u64);
                    s.append(d.as_str());
                    proof {
                        reveal_strlit("");
                        assert(m.take(i + 1).drop_last() =~= m.take(i as int));
                        assert(m.take(i + 1).last() == a@[i as int] as int);
                        assert(s@ =~= "{ "@ + spec_dec_join(m.take(i + 1), ""@));
                    }
                    i += 1;
                }
                s.append(" }");
                proof {
                    reveal_strlit("");
                    assert(m.take(m.len() as int) =~= m);
                    assert(s@ =~= spec_c_val(*self));
                }
                s
            },
            ModelParam::IntArray(a) => {
                let ghost m = a@.map_values(|x: u64| x as int);
                let mut s = String::from_str("{ ");
                let mut i: usize = 0;
                while i < a.len()
                    invariant
                        i <= a@.len(),
                        m == a@.map_values(|x: u64| x as int),
                        s@ == "{ "@ + spec_dec_join(m.take(i as int), "UL"@),
                    decreases a@.len() - i,
                {
                    if i > 0 {
                        s.append(", ");
                    }
                    let d = u64_to_decimal(a[i]);
                    s.append(d.as_str());
                    s.append("UL");
                    proof {
                        assert(m.take(i + 1).drop_last() =~= m.take(i as int));
                        assert(m.take(i + 1).last() == a@[i as int] as int);
                        assert(s@ =~= "{ "@ + spec_dec_join(m.take(i + 1), "UL"@));
                    }
                    i += 1;
                }
                s.append(" }");
                proof {
                    assert(m.take(m.len() as int) =~= m);
                    assert(s@ =~= spec_c_val(*self));
                }
                s
            },
            ModelParam::Int32Array(a) => {
                let ghost m = a@.map_values(|x: u32| x as int);
                let mut s = String::from_str("{ ");
                let mut i: usize = 0;
                while i < a.len()
                    invariant
                        i <= a@.len(),
                        m == a@.map_values(|x: u32| x as int),
                        s@ == "{ "@ + spec_dec_join(m.take(i as int), "UL"@),
                    decreases a@.len() - i,
                {
                    if i > 0 {
                        s.append(", ");
                    }
                    let d = u64_to_decimal(a[i] as u64);
                    s.append(d.as_str());
                    s.append("UL");
                    proof {
                        assert(m.take(i + 1).drop_last() =~= m.take(i as int));
                        assert(m.take(i + 1).last() == a@[i as int] as int);
                        assert(s@ =~= "{ "@ + spec_dec_join(m.take(i + 1), "UL"@));
                    }
                    i += 1;
                }
                s.append(" }");
                proof {
                    assert(m.take(m.len() as int) =~= m);
                    assert(s@ =~= spec_c_val(*self));
                }
                s
            },
            _ => {
                proof {
                    assert(false);
                }
                String::new()
            },
        }
    }
}

} // verus!
