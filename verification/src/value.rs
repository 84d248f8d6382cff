use vstd::prelude::*;
use vstd::utf8::encode_utf8;

verus! {

/// A TOML value as the conversion rules read it.
///
/// A float is held by its IEEE-754 bit pattern; a date-time by its text.
#[derive(Debug, PartialEq)]
pub enum TomlValue {
    String(String),
    Integer(i64),
    Float(u64),
    Boolean(bool),
    Datetime(String),
    Array(Vec<TomlValue>),
    Table(Vec<(String, TomlValue)>),
}

/// The primitive component types that a TOML value can be converted to.
#[derive(Clone, Copy, Debug, PartialEq, Eq, Structural)]
pub enum PrimitiveType {
    Empty,
    Bool,
    EntityId,
    F32,
    F64,
    Mat4,
    Quat,
    String,
    U8,
    U16,
    U32,
    U64,
    I8,
    I16,
    I32,
    I64,
    Vec2,
    Vec3,
    Vec4,
    Uvec2,
    Uvec3,
    Uvec4,
    Ivec2,
    Ivec3,
    Ivec4,
    Duration,
    ProceduralMeshHandle,
    ProceduralTextureHandle,
    ProceduralSamplerHandle,
    ProceduralMaterialHandle,
}

impl PrimitiveType {
    /// Types whose values are made of floating-point numbers, which this
    /// library does not hold.
    pub open spec fn is_float(self) -> bool {
        match self {
            PrimitiveType::F32 | PrimitiveType::F64 | PrimitiveType::Mat4 | PrimitiveType::Quat
            | PrimitiveType::Vec2 | PrimitiveType::Vec3 | PrimitiveType::Vec4 => true,
            _ => false,
        }
    }

    /// Number of components of an integer vector type, 0 for other types.
    pub open spec fn int_vector_len(self) -> nat {
        match self {
            PrimitiveType::Uvec2 | PrimitiveType::Ivec2 => 2,
            PrimitiveType::Uvec3 | PrimitiveType::Ivec3 => 3,
            PrimitiveType::Uvec4 | PrimitiveType::Ivec4 => 4,
            _ => 0,
        }
    }
}

/// Two unsigned components.
#[derive(Clone, Copy, Debug, PartialEq, Eq, Structural)]
pub struct UVec2 {
    pub x: u32,
    pub y: u32,
}

/// Three unsigned components.
#[derive(Clone, Copy, Debug, PartialEq, Eq, Structural)]
pub struct UVec3 {
    pub x: u32,
    pub y: u32,
    pub z: u32,
}

/// Four unsigned components.
#[derive(Clone, Copy, Debug, PartialEq, Eq, Structural)]
pub struct UVec4 {
    pub x: u32,
    pub y: u32,
    pub z: u32,
    pub w: u32,
}

/// Two signed components.
#[derive(Clone, Copy, Debug, PartialEq, Eq, Structural)]
pub struct IVec2 {
    pub x: i32,
    pub y: i32,
}

/// Three signed components.
#[derive(Clone, Copy, Debug, PartialEq, Eq, Structural)]
pub struct IVec3 {
    pub x: i32,
    pub y: i32,
    pub z: i32,
}

/// Four signed components.
#[derive(Clone, Copy, Debug, PartialEq, Eq, Structural)]
pub struct IVec4 {
    pub x: i32,
    pub y: i32,
    pub z: i32,
    pub w: i32,
}

/// A converted scalar component value of a type that is not made of floats.
#[derive(Clone, Debug, PartialEq)]
pub enum ScalarValue {
    Empty,
    Bool(bool),
    EntityId(u128),
    String(String),
    U8(u8),
    U16(u16),
    U32(u32),
    U64(u64),
    I8(i8),
    I16(i16),
    I32(i32),
    I64(i64),
    Uvec2(UVec2),
    Uvec3(UVec3),
    Uvec4(UVec4),
    Ivec2(IVec2),
    Ivec3(IVec3),
    Ivec4(IVec4),
}

/// Why a TOML value could not be converted.
#[derive(Clone, Copy, Debug, PartialEq, Eq, Structural)]
pub enum ValueError {
    ExpectedBool,
    ExpectedInteger,
        ExpectedString,
    ExpectedArray,
    InvalidBase64,
    InvalidEntityIdLength,
    UnsupportedType,
    MissingItem,
    ExpectedVecType,
    ExpectedOptionType,
    ExpectedPrimitiveType,
    OptionTooLong,
    ExpectedEnumVariantString,
    UnknownEnumVariant,
}

// ----- reading single TOML values -----

pub open spec fn toml_bool(v: TomlValue) -> Result<bool, ValueError> {
    match v {
        TomlValue::Boolean(b) => Ok(b),
        _ => Err(ValueError::ExpectedBool),
    }
}

pub open spec fn toml_integer(v: TomlValue) -> Result<i64, ValueError> {
    match v {
        TomlValue::Integer(i) => Ok(i),
        _ => Err(ValueError::ExpectedInteger),
    }
}

pub open spec fn is_integer(v: TomlValue) -> bool {
    v is Integer
}

pub open spec fn integer_of(v: TomlValue) -> i64 {
    match v {
        TomlValue::Integer(i) => i,
        _ => 0,
    }
}

/// The integers of an array whose elements are all integers.
pub open spec fn toml_integer_elements(v: TomlValue) -> Result<Seq<i64>, ValueError> {
    match v {
        TomlValue::Array(a) => if forall|i: int| 0 <= i < a@.len() ==> #[trigger] is_integer(a@[i]) {
            Ok(a@.map_values(|e: TomlValue| integer_of(e)))
        } else {
            Err(ValueError::ExpectedInteger)
        },
        _ => Err(ValueError::ExpectedArray),
    }
}

fn as_bool(v: &TomlValue) -> (res: Result<bool, ValueError>)
    ensures
        res == toml_bool(*v),
{
    match v {
        TomlValue::Boolean(b) => Ok(*b),
        _ => Err(ValueError::ExpectedBool),
    }
}

fn as_integer(v: &TomlValue) -> (res: Result<i64, ValueError>)
    ensures
        res == toml_integer(*v),
{
    match v {
        TomlValue::Integer(i) => Ok(*i),
        _ => Err(ValueError::ExpectedInteger),
    }
}

/// Reads an array of integers, stopping at the first element that is not one.
fn as_integer_array(v: &TomlValue) -> (res: Result<Vec<i64>, ValueError>)
    ensures
        match toml_integer_elements(*v) {
            Ok(s) => res matches Ok(r) && r@ == s,
            Err(e) => res == Err::<Vec<i64>, ValueError>(e),
        },
{
    match v {
        TomlValue::Array(a) => {
            let mut out: Vec<i64> = Vec::new();
            let mut i: usize = 0;
            while i < a.len()
                invariant
                    *v == TomlValue::Array(*a),
                    i <= a.len(),
                    out@.len() == i,
                    forall|j: int| 0 <= j < i ==> #[trigger] is_integer(a@[j]),
                    forall|j: int| 0 <= j < i ==> out@[j] == integer_of(#[trigger] a@[j]),
                decreases a.len() - i,
            {
                match &a[i] {
                    TomlValue::Integer(x) => {
                        out.push(*x);
                    },
                    _ => {
                        assert(!is_integer(a@[i as int]));
                        assert(!(forall|j: int| 0 <= j < a@.len() ==> #[trigger] is_integer(a@[j])));
                        return Err(ValueError::ExpectedInteger);
                    },
                }
                i = i + 1;
            }
            assert(out@ =~= a@.map_values(|e: TomlValue| integer_of(e)));
            Ok(out)
        },
        _ => Err(ValueError::ExpectedArray),
    }
}

// ----- entity ids -----

/// `data_encoding::DecodeError`, carried through as an opaque value.
#[verifier::external_type_specification]
#[verifier::external_body]
pub struct ExDecodeError(data_encoding::DecodeError);

/// What standard Base64 (RFC 4648, with padding) decodes the given bytes to,
/// or `None` where they are not valid Base64.
pub uninterp spec fn base64_decoded(input: Seq<u8>) -> Option<Seq<u8>>;

/// Calls `data_encoding::BASE64.decode`. Claimed: the outcome depends on the
/// input bytes alone, and is `base64_decoded` of them. That function panics on
/// inputs longer than `usize::MAX / 8`, which `requires` leaves out.
#[verifier::external_body]
fn base64_decode(input: &[u8]) -> (res: Result<Vec<u8>, data_encoding::DecodeError>)
    requires
        input@.len() <= usize::MAX / 8,
    ensures
        res is Ok <==> base64_decoded(input@) is Some,
        res matches Ok(bytes) ==> bytes@ == base64_decoded(input@)->0,
{
    data_encoding::BASE64.decode(input)
}

pub open spec fn pow256(n: nat) -> nat
    decreases n,
{
    if n == 0 {
        1
    } else {
        256 * pow256((n - 1) as nat)
    }
}

/// The number whose little-endian base-256 digits are `bytes`.
pub open spec fn le_value(bytes: Seq<u8>) -> nat
    decreases bytes.len(),
{
    if bytes.len() == 0 {
        0
    } else {
        (bytes[0] + 256 * le_value(bytes.drop_first())) as nat
    }
}

proof fn lemma_le_value_bound(bytes: Seq<u8>)
    ensures
        le_value(bytes) < pow256(bytes.len()),
    decreases bytes.len(),
{
    if bytes.len() > 0 {
        lemma_le_value_bound(bytes.drop_first());
    }
}

proof fn lemma_pow256_monotone(a: nat, b: nat)
    requires
        a <= b,
    ensures
        pow256(a) <= pow256(b),
    decreases b,
{
    if a < b {
        lemma_pow256_monotone(a, (b - 1) as nat);
    }
}

/// `u128::from_le_bytes` on a slice of exactly sixteen bytes.
fn u128_from_le_bytes(bytes: &[u8]) -> (res: u128)
    requires
        bytes@.len() == 16,
    ensures
        res == le_value(bytes@),
{
    proof {
        reveal_with_fuel(pow256, 17);
        assert(pow256(16) == 0x1_0000_0000_0000_0000_0000_0000_0000_0000);
    }
    let mut v: u128 = 0;
    let mut i: usize = 16;
    assert(bytes@.subrange(16, 16) =~= Seq::<u8>::empty());
    while i > 0
        invariant
            i <= 16,
            bytes@.len() == 16,
            v == le_value(bytes@.subrange(i as int, 16)),
            pow256(16) == 0x1_0000_0000_0000_0000_0000_0000_0000_0000,
        decreases i,
    {
        proof {
            lemma_le_value_bound(bytes@.subrange(i as int, 16));
            lemma_pow256_monotone((17 - i) as nat, 16);
            assert(bytes@.subrange(i - 1, 16).drop_first() =~= bytes@.subrange(i as int, 16));
        }
        v = v * 256 + bytes[i - 1] as u128;
        i = i - 1;
    }
    assert(bytes@.subrange(0, 16) =~= bytes@);
    v
}

// ----- scalar conversion -----

/// The UTF-8 bytes of `s` fit the Base64 decoder's length limit.
pub open spec fn fits_decoder(s: String) -> bool {
    encode_utf8(s@).len() <= usize::MAX / 8
}

/// The inputs on which converting `v` to `ty` neither panics nor involves
/// floating-point numbers: the type is not made of floats, an integer-vector
/// type is given an array of exactly its length (or no array at all), and an
/// entity id's text fits the decoder.
pub open spec fn scalar_convertible(v: TomlValue, ty: PrimitiveType) -> bool {
    &&& !ty.is_float()
    &&& (ty.int_vector_len() > 0 ==> (v matches TomlValue::Array(a) ==> a@.len()
        == ty.int_vector_len()))
    &&& (ty == PrimitiveType::EntityId ==> (v matches TomlValue::String(s) ==> fits_decoder(s)))
}

/// The scalar that a TOML value converts to for a primitive type.
pub open spec fn scalar_from_toml(v: TomlValue, ty: PrimitiveType) -> Result<ScalarValue, ValueError> {
    match ty {
        PrimitiveType::Empty => Ok(ScalarValue::Empty),
        PrimitiveType::Bool => match toml_bool(v) {
            Ok(b) => Ok(ScalarValue::Bool(b)),
            Err(e) => Err(e),
        },
        PrimitiveType::EntityId => match v {
            TomlValue::String(s) => match base64_decoded(encode_utf8(s@)) {
                Some(bytes) => if bytes.len() == 16 {
                    Ok(ScalarValue::EntityId(le_value(bytes) as u128))
                } else {
                    Err(ValueError::InvalidEntityIdLength)
                },
                None => Err(ValueError::InvalidBase64),
            },
            _ => Err(ValueError::ExpectedString),
        },
        PrimitiveType::String => match v {
            TomlValue::String(s) => Ok(ScalarValue::String(s)),
            _ => Err(ValueError::ExpectedString),
        },
        PrimitiveType::U8 => match toml_integer(v) {
            Ok(i) => Ok(ScalarValue::U8(i as u8)),
            Err(e) => Err(e),
        },
        PrimitiveType::U16 => match toml_integer(v) {
            Ok(i) => Ok(ScalarValue::U16(i as u16)),
            Err(e) => Err(e),
        },
        PrimitiveType::U32 => match toml_integer(v) {
            Ok(i) => Ok(ScalarValue::U32(i as u32)),
            Err(e) => Err(e),
        },
        PrimitiveType::U64 => match toml_integer(v) {
            Ok(i) => Ok(ScalarValue::U64(i as u64)),
            Err(e) => Err(e),
        },
        PrimitiveType::I8 => match toml_integer(v) {
            Ok(i) => Ok(ScalarValue::I8(i as i8)),
            Err(e) => Err(e),
        },
        PrimitiveType::I16 => match toml_integer(v) {
            Ok(i) => Ok(ScalarValue::I16(i as i16)),
            Err(e) => Err(e),
        },
        PrimitiveType::I32 => match toml_integer(v) {
            Ok(i) => Ok(ScalarValue::I32(i as i32)),
            Err(e) => Err(e),
        },
        PrimitiveType::I64 => match toml_integer(v) {
            Ok(i) => Ok(ScalarValue::I64(i)),
            Err(e) => Err(e),
        },
        PrimitiveType::Uvec2 => match toml_integer_elements(v) {
            Ok(e) => Ok(ScalarValue::Uvec2(UVec2 { x: e[0] as u32, y: e[1] as u32 })),
            Err(err) => Err(err),
        },
        PrimitiveType::Uvec3 => match toml_integer_elements(v) {
            Ok(e) => Ok(ScalarValue::Uvec3(UVec3 { x: e[0] as u32, y: e[1] as u32, z: e[2] as u32 })),
            Err(err) => Err(err),
        },
        PrimitiveType::Uvec4 => match toml_integer_elements(v) {
            Ok(e) => Ok(
                ScalarValue::Uvec4(
                    UVec4 { x: e[0] as u32, y: e[1] as u32, z: e[2] as u32, w: e[3] as u32 },
                ),
            ),
            Err(err) => Err(err),
        },
        PrimitiveType::Ivec2 => match toml_integer_elements(v) {
            Ok(e) => Ok(ScalarValue::Ivec2(IVec2 { x: e[0] as i32, y: e[1] as i32 })),
            Err(err) => Err(err),
        },
        PrimitiveType::Ivec3 => match toml_integer_elements(v) {
            Ok(e) => Ok(ScalarValue::Ivec3(IVec3 { x: e[0] as i32, y: e[1] as i32, z: e[2] as i32 })),
            Err(err) => Err(err),
        },
        PrimitiveType::Ivec4 => match toml_integer_elements(v) {
            Ok(e) => Ok(
                ScalarValue::Ivec4(
                    IVec4 { x: e[0] as i32, y: e[1] as i32, z: e[2] as i32, w: e[3] as i32 },
                ),
            ),
            Err(err) => Err(err),
        },
        PrimitiveType::Duration | PrimitiveType::ProceduralMeshHandle
        | PrimitiveType::ProceduralTextureHandle | PrimitiveType::ProceduralSamplerHandle
        | PrimitiveType::ProceduralMaterialHandle => Err(ValueError::UnsupportedType),
        PrimitiveType::F32 | PrimitiveType::F64 | PrimitiveType::Mat4 | PrimitiveType::Quat
        | PrimitiveType::Vec2 | PrimitiveType::Vec3 | PrimitiveType::Vec4 => arbitrary(),
    }
}

/// Integers convert to integer types by wrapping, as Rust's `as` does: the
/// result is the integer reduced to the type's range, for every integer.
pub proof fn law_integers_wrap_to_their_type(i: i64)
    ensures
        scalar_from_toml(TomlValue::Integer(i), PrimitiveType::U8) == Ok::<ScalarValue, ValueError>(
            ScalarValue::U8(i as u8),
        ),
        scalar_from_toml(TomlValue::Integer(i), PrimitiveType::U16) == Ok::<ScalarValue, ValueError>(
            ScalarValue::U16(i as u16),
        ),
        scalar_from_toml(TomlValue::Integer(i), PrimitiveType::U32) == Ok::<ScalarValue, ValueError>(
            ScalarValue::U32(i as u32),
        ),
        scalar_from_toml(TomlValue::Integer(i), PrimitiveType::U64) == Ok::<ScalarValue, ValueError>(
            ScalarValue::U64(i as u64),
        ),
        scalar_from_toml(TomlValue::Integer(i), PrimitiveType::I8) == Ok::<ScalarValue, ValueError>(
            ScalarValue::I8(i as i8),
        ),
        scalar_from_toml(TomlValue::Integer(i), PrimitiveType::I16) == Ok::<ScalarValue, ValueError>(
            ScalarValue::I16(i as i16),
        ),
        scalar_from_toml(TomlValue::Integer(i), PrimitiveType::I32) == Ok::<ScalarValue, ValueError>(
            ScalarValue::I32(i as i32),
        ),
        scalar_from_toml(TomlValue::Integer(i), PrimitiveType::I64) == Ok::<ScalarValue, ValueError>(
            ScalarValue::I64(i),
        ),
        0 <= i < 256 ==> (i as u8) as int == i as int,
        -128 <= i < 128 ==> (i as i8) as int == i as int,
{
}

/// Booleans and strings convert to themselves, and nothing else converts to
/// them.
pub proof fn law_bools_and_strings_convert_unchanged(v: TomlValue)
    ensures
        v matches TomlValue::Boolean(b) ==> scalar_from_toml(v, PrimitiveType::Bool) == Ok::<
            ScalarValue,
            ValueError,
        >(ScalarValue::Bool(b)),
        !(v is Boolean) ==> scalar_from_toml(v, PrimitiveType::Bool) == Err::<ScalarValue, ValueError>(
            ValueError::ExpectedBool,
        ),
        v matches TomlValue::String(s) ==> scalar_from_toml(v, PrimitiveType::String) == Ok::<
            ScalarValue,
            ValueError,
        >(ScalarValue::String(s)),
        !(v is String) ==> scalar_from_toml(v, PrimitiveType::String) == Err::<
            ScalarValue,
            ValueError,
        >(ValueError::ExpectedString),
        !(v is Integer) ==> scalar_from_toml(v, PrimitiveType::I32) == Err::<ScalarValue, ValueError>(
            ValueError::ExpectedInteger,
        ),
{
}

/// Two-component integer vectors take the first element as `x` and the second
/// as `y`, each wrapped to the component type.
pub proof fn law_two_component_vectors(v: TomlValue, a: i64, b: i64)
    requires
        v matches TomlValue::Array(arr) && arr@ == seq![TomlValue::Integer(a), TomlValue::Integer(b)],
    ensures
        scalar_from_toml(v, PrimitiveType::Uvec2) == Ok::<ScalarValue, ValueError>(
            ScalarValue::Uvec2(UVec2 { x: a as u32, y: b as u32 }),
        ),
        scalar_from_toml(v, PrimitiveType::Ivec2) == Ok::<ScalarValue, ValueError>(
            ScalarValue::Ivec2(IVec2 { x: a as i32, y: b as i32 }),
        ),
{
    let arr = v->Array_0;
    assert(arr@.map_values(|e: TomlValue| integer_of(e)) =~= seq![a, b]);
}

/// Three-component integer vectors take the elements in order as `x`, `y`
/// and `z`, each wrapped to the component type.
pub proof fn law_three_component_vectors(v: TomlValue, a: i64, b: i64, c: i64)
    requires
        v matches TomlValue::Array(arr) && arr@ == seq![
            TomlValue::Integer(a),
            TomlValue::Integer(b),
            TomlValue::Integer(c),
        ],
    ensures
        scalar_from_toml(v, PrimitiveType::Uvec3) == Ok::<ScalarValue, ValueError>(
            ScalarValue::Uvec3(UVec3 { x: a as u32, y: b as u32, z: c as u32 }),
        ),
        scalar_from_toml(v, PrimitiveType::Ivec3) == Ok::<ScalarValue, ValueError>(
            ScalarValue::Ivec3(IVec3 { x: a as i32, y: b as i32, z: c as i32 }),
        ),
{
    let arr = v->Array_0;
    assert(arr@.map_values(|e: TomlValue| integer_of(e)) =~= seq![a, b, c]);
}

/// Four-component integer vectors take the elements in order as `x`, `y`,
/// `z` and `w`, each wrapped to the component type.
pub proof fn law_four_component_vectors(v: TomlValue, a: i64, b: i64, c: i64, d: i64)
    requires
        v matches TomlValue::Array(arr) && arr@ == seq![
            TomlValue::Integer(a),
            TomlValue::Integer(b),
            TomlValue::Integer(c),
            TomlValue::Integer(d),
        ],
    ensures
        scalar_from_toml(v, PrimitiveType::Uvec4) == Ok::<ScalarValue, ValueError>(
            ScalarValue::Uvec4(UVec4 { x: a as u32, y: b as u32, z: c as u32, w: d as u32 }),
        ),
        scalar_from_toml(v, PrimitiveType::Ivec4) == Ok::<ScalarValue, ValueError>(
            ScalarValue::Ivec4(IVec4 { x: a as i32, y: b as i32, z: c as i32, w: d as i32 }),
        ),
{
    let arr = v->Array_0;
    assert(arr@.map_values(|e: TomlValue| integer_of(e)) =~= seq![a, b, c, d]);
}

/// An integer vector is read only from an array of integers: anything else
/// than an array fails with `ExpectedArray`, an array with a non-integer
/// element with `ExpectedInteger`.
pub proof fn law_integer_vectors_need_integer_arrays(v: TomlValue, ty: PrimitiveType, k: int)
    requires
        ty.int_vector_len() > 0,
    ensures
        !(v is Array) ==> scalar_from_toml(v, ty) == Err::<ScalarValue, ValueError>(
            ValueError::ExpectedArray,
        ),
        v matches TomlValue::Array(arr) ==> (0 <= k < arr@.len() && !(arr@[k] is Integer)
            ==> scalar_from_toml(v, ty) == Err::<ScalarValue, ValueError>(ValueError::ExpectedInteger)),
{
    if let TomlValue::Array(arr) = v {
        if 0 <= k < arr@.len() && !(arr@[k] is Integer) {
            assert(!is_integer(arr@[k]));
        }
    }
}

/// Entity ids are the sixteen decoded bytes read little-endian: the first
/// byte is the least significant. Text that does not decode fails with
/// `InvalidBase64`, and a decoding of another length with
/// `InvalidEntityIdLength`.
pub proof fn law_entity_ids_are_little_endian(s: String, bytes: Seq<u8>)
    requires
        base64_decoded(encode_utf8(s@)) == Some(bytes),
    ensures
        bytes.len() == 16 ==> scalar_from_toml(TomlValue::String(s), PrimitiveType::EntityId) == Ok::<
            ScalarValue,
            ValueError,
        >(
            ScalarValue::EntityId(
                (bytes[0] + 0x100 * bytes[1] + 0x1_0000 * bytes[2] + 0x100_0000 * bytes[3]
                    + 0x1_0000_0000 * bytes[4] + 0x100_0000_0000 * bytes[5] + 0x1_0000_0000_0000
                    * bytes[6] + 0x100_0000_0000_0000 * bytes[7] + 0x1_0000_0000_0000_0000
                    * bytes[8] + 0x100_0000_0000_0000_0000 * bytes[9]
                    + 0x1_0000_0000_0000_0000_0000 * bytes[10] + 0x100_0000_0000_0000_0000_0000
                    * bytes[11] + 0x1_0000_0000_0000_0000_0000_0000 * bytes[12]
                    + 0x100_0000_0000_0000_0000_0000_0000 * bytes[13]
                    + 0x1_0000_0000_0000_0000_0000_0000_0000 * bytes[14]
                    + 0x100_0000_0000_0000_0000_0000_0000_0000 * bytes[15]) as u128,
            ),
        ),
        bytes.len() != 16 ==> scalar_from_toml(TomlValue::String(s), PrimitiveType::EntityId)
            == Err::<ScalarValue, ValueError>(ValueError::InvalidEntityIdLength),
{
    if bytes.len() == 16 {
        lemma_le_value_16(bytes);
        lemma_le_value_bound(bytes);
        reveal_with_fuel(pow256, 17);
    }
}

proof fn lemma_le_value_16(b: Seq<u8>)
    requires
        b.len() == 16,
    ensures
        le_value(b) == b[0] + 0x100 * b[1] + 0x1_0000 * b[2] + 0x100_0000 * b[3] + 0x1_0000_0000 * b[4]
            + 0x100_0000_0000 * b[5] + 0x1_0000_0000_0000 * b[6] + 0x100_0000_0000_0000 * b[7]
            + 0x1_0000_0000_0000_0000 * b[8] + 0x100_0000_0000_0000_0000 * b[9]
            + 0x1_0000_0000_0000_0000_0000 * b[10] + 0x100_0000_0000_0000_0000_0000 * b[11]
            + 0x1_0000_0000_0000_0000_0000_0000 * b[12] + 0x100_0000_0000_0000_0000_0000_0000 * b[13]
            + 0x1_0000_0000_0000_0000_0000_0000_0000 * b[14] + 0x100_0000_0000_0000_0000_0000_0000_0000
            * b[15],
{
    let b1 = b.drop_first();
    let b2 = b1.drop_first();
    let b3 = b2.drop_first();
    let b4 = b3.drop_first();
    let b5 = b4.drop_first();
    let b6 = b5.drop_first();
    let b7 = b6.drop_first();
    let b8 = b7.drop_first();
    let b9 = b8.drop_first();
    let b10 = b9.drop_first();
    let b11 = b10.drop_first();
    let b12 = b11.drop_first();
    let b13 = b12.drop_first();
    let b14 = b13.drop_first();
    let b15 = b14.drop_first();
    let b16 = b15.drop_first();
    assert(le_value(b16) == 0);
    assert(le_value(b15) == b[15] + 256 * le_value(b16));
    assert(le_value(b14) == b[14] + 256 * le_value(b15));
    assert(le_value(b13) == b[13] + 256 * le_value(b14));
    assert(le_value(b12) == b[12] + 256 * le_value(b13));
    assert(le_value(b11) == b[11] + 256 * le_value(b12));
    assert(le_value(b10) == b[10] + 256 * le_value(b11));
    assert(le_value(b9) == b[9] + 256 * le_value(b10));
    assert(le_value(b8) == b[8] + 256 * le_value(b9));
    assert(le_value(b7) == b[7] + 256 * le_value(b8));
    assert(le_value(b6) == b[6] + 256 * le_value(b7));
    assert(le_value(b5) == b[5] + 256 * le_value(b6));
    assert(le_value(b4) == b[4] + 256 * le_value(b5));
    assert(le_value(b3) == b[3] + 256 * le_value(b4));
    assert(le_value(b2) == b[2] + 256 * le_value(b3));
    assert(le_value(b1) == b[1] + 256 * le_value(b2));
    assert(le_value(b) == b[0] + 256 * le_value(b1));
}

/// Every value converts to `Empty` for the empty type; durations and
/// procedural handles cannot be read from TOML at all.
pub proof fn law_empty_and_unsupported_types(v: TomlValue)
    ensures
        scalar_from_toml(v, PrimitiveType::Empty) == Ok::<ScalarValue, ValueError>(ScalarValue::Empty),
        scalar_from_toml(v, PrimitiveType::Duration) == Err::<ScalarValue, ValueError>(
            ValueError::UnsupportedType,
        ),
        scalar_from_toml(v, PrimitiveType::ProceduralMeshHandle) == Err::<ScalarValue, ValueError>(
            ValueError::UnsupportedType,
        ),
        scalar_from_toml(v, PrimitiveType::ProceduralTextureHandle) == Err::<ScalarValue, ValueError>(
            ValueError::UnsupportedType,
        ),
        scalar_from_toml(v, PrimitiveType::ProceduralSamplerHandle) == Err::<ScalarValue, ValueError>(
            ValueError::UnsupportedType,
        ),
        scalar_from_toml(v, PrimitiveType::ProceduralMaterialHandle) == Err::<ScalarValue, ValueError>(
            ValueError::UnsupportedType,
        ),
        !(v is String) ==> scalar_from_toml(v, PrimitiveType::EntityId) == Err::<ScalarValue, ValueError>(
            ValueError::ExpectedString,
        ),
{
}

fn entity_id_from_toml(v: &TomlValue) -> (res: Result<ScalarValue, ValueError>)
    requires
        scalar_convertible(*v, PrimitiveType::EntityId),
    ensures
        res == scalar_from_toml(*v, PrimitiveType::EntityId),
{
    match v {
        TomlValue::String(s) => {
            let bytes = s.as_str().as_bytes();
            match base64_decode(bytes) {
                Ok(decoded) => {
                    if decoded.len() == 16 {
                        Ok(ScalarValue::EntityId(u128_from_le_bytes(decoded.as_slice())))
                    } else {
                        Err(ValueError::InvalidEntityIdLength)
                    }
                },
                Err(_) => Err(ValueError::InvalidBase64),
            }
        },
        _ => Err(ValueError::ExpectedString),
    }
}

impl ScalarValue {
    /// Converts a TOML value to a scalar of the given primitive type.
    pub fn from_toml(value: &TomlValue, ty: PrimitiveType) -> (res: Result<ScalarValue, ValueError>)
        requires
            scalar_convertible(*value, ty),
        ensures
            res == scalar_from_toml(*value, ty),
    {
        let v = value;
        match ty {
            PrimitiveType::Empty => Ok(ScalarValue::Empty),
            PrimitiveType::Bool => Ok(ScalarValue::Bool(as_bool(v)?)),
            PrimitiveType::EntityId => entity_id_from_toml(v),
            PrimitiveType::String => match v {
                TomlValue::String(s) => Ok(ScalarValue::String(s.clone())),
                _ => Err(ValueError::ExpectedString),
            },
            PrimitiveType::U8 => Ok(ScalarValue::U8(as_integer(v)? as u8)),
            PrimitiveType::U16 => Ok(ScalarValue::U16(as_integer(v)? as u16)),
            PrimitiveType::U32 => Ok(ScalarValue::U32(as_integer(v)? as u32)),
            PrimitiveType::U64 => Ok(ScalarValue::U64(as_integer(v)? as u64)),
            PrimitiveType::I8 => Ok(ScalarValue::I8(as_integer(v)? as i8)),
            PrimitiveType::I16 => Ok(ScalarValue::I16(as_integer(v)? as i16)),
            PrimitiveType::I32 => Ok(ScalarValue::I32(as_integer(v)? as i32)),
            PrimitiveType::I64 => Ok(ScalarValue::I64(as_integer(v)?)),
            PrimitiveType::Uvec2 => {
                let e = as_integer_array(v)?;
                Ok(ScalarValue::Uvec2(UVec2 { x: e[0] as u32, y: e[1] as u32 }))
            },
            PrimitiveType::Uvec3 => {
                let e = as_integer_array(v)?;
                Ok(ScalarValue::Uvec3(UVec3 { x: e[0] as u32, y: e[1] as u32, z: e[2] as u32 }))
            },
            PrimitiveType::Uvec4 => {
                let e = as_integer_array(v)?;
                Ok(
                    ScalarValue::Uvec4(
                        UVec4 { x: e[0] as u32, y: e[1] as u32, z: e[2] as u32, w: e[3] as u32 },
                    ),
                )
            },
            PrimitiveType::Ivec2 => {
                let e = as_integer_array(v)?;
                Ok(ScalarValue::Ivec2(IVec2 { x: e[0] as i32, y: e[1] as i32 }))
            },
            PrimitiveType::Ivec3 => {
                let e = as_integer_array(v)?;
                Ok(ScalarValue::Ivec3(IVec3 { x: e[0] as i32, y: e[1] as i32, z: e[2] as i32 }))
            },
            PrimitiveType::Ivec4 => {
                let e = as_integer_array(v)?;
                Ok(
                    ScalarValue::Ivec4(
                        IVec4 { x: e[0] as i32, y: e[1] as i32, z: e[2] as i32, w: e[3] as i32 },
                    ),
                )
            },
            PrimitiveType::Duration | PrimitiveType::ProceduralMeshHandle
            | PrimitiveType::ProceduralTextureHandle | PrimitiveType::ProceduralSamplerHandle
            | PrimitiveType::ProceduralMaterialHandle => Err(ValueError::UnsupportedType),
            PrimitiveType::F32 | PrimitiveType::F64 | PrimitiveType::Mat4 | PrimitiveType::Quat
            | PrimitiveType::Vec2 | PrimitiveType::Vec3 | PrimitiveType::Vec4 => {
                assert(false);
                Err(ValueError::UnsupportedType)
            },
        }
    }
}

// ----- typed values -----

/// The definition of a type item: a primitive, a vector or option of another
/// type item, or an enum with its members (name, description) in order.
#[derive(Clone, Debug, PartialEq)]
pub enum TypeInner {
    Primitive(PrimitiveType),
    Vec(usize),
    Option(usize),
    Enum(Vec<(String, String)>),
}

/// The type items, each found by its id (its index here).
#[derive(Clone, Debug, PartialEq)]
pub struct ItemMap {
    pub types: Vec<TypeInner>,
}

/// A value converted against a type item.
#[derive(Clone, Debug, PartialEq)]
pub enum Value {
    Scalar(ScalarValue),
    Vec(Vec<ScalarValue>),
    Option(Option<ScalarValue>),
    Enum(usize, String),
}

impl ItemMap {
    /// Looks up a type item by id.
    pub fn get(&self, id: usize) -> (res: Result<&TypeInner, ValueError>)
        ensures
            id < self.types@.len() ==> res == Ok::<&TypeInner, ValueError>(&self.types@[id as int]),
            id >= self.types@.len() ==> res == Err::<&TypeInner, ValueError>(ValueError::MissingItem),
    {
        if id < self.types.len() {
            Ok(&self.types[id])
        } else {
            Err(ValueError::MissingItem)
        }
    }
}

/// The element primitive that a vector (or option) type item `id` leads to:
/// `id` must name a vector (option) item whose element names a primitive.
pub open spec fn element_primitive(
    items: Seq<TypeInner>,
    id: int,
    of_option: bool,
) -> Result<PrimitiveType, ValueError> {
    if id < 0 || id >= items.len() {
        Err(ValueError::MissingItem)
    } else {
        let inner_id: Option<usize> = match items[id] {
            TypeInner::Vec(e) => if of_option { None } else { Some(e) },
            TypeInner::Option(e) => if of_option { Some(e) } else { None },
            _ => None,
        };
        match inner_id {
            None => Err(
                if of_option {
                    ValueError::ExpectedOptionType
                } else {
                    ValueError::ExpectedVecType
                },
            ),
            Some(e) => if e >= items.len() {
                Err(ValueError::MissingItem)
            } else {
                match items[e as int] {
                    TypeInner::Primitive(p) => Ok(p),
                    _ => Err(ValueError::ExpectedPrimitiveType),
                }
            },
        }
    }
}

/// Converts, in order, every element of `elems` to `ty`, stopping at the first
/// failure.
pub open spec fn scalars_from_toml(elems: Seq<TomlValue>, ty: PrimitiveType) -> Result<
    Seq<ScalarValue>,
    ValueError,
>
    decreases elems.len(),
{
    if elems.len() == 0 {
        Ok(Seq::empty())
    } else {
        match scalars_from_toml(elems.drop_last(), ty) {
            Err(e) => Err(e),
            Ok(prefix) => match scalar_from_toml(elems.last(), ty) {
                Err(e) => Err(e),
                Ok(x) => Ok(prefix.push(x)),
            },
        }
    }
}

/// Index of the first enum member called `name`.
pub open spec fn first_member_named(members: Seq<(String, String)>, name: Seq<char>) -> Option<int> {
    if exists|i: int| is_first_member_named(members, name, i) {
        Some(choose|i: int| is_first_member_named(members, name, i))
    } else {
        None
    }
}

pub open spec fn is_first_member_named(members: Seq<(String, String)>, name: Seq<char>, i: int) -> bool {
    &&& 0 <= i < members.len()
    &&& members[i].0@ == name
    &&& forall|j: int| 0 <= j < i ==> (#[trigger] members[j]).0@ != name
}

/// The result of converting `value` against the type item `ty_id`, with
/// vectors and options given as sequences and options.
pub open spec fn value_from_toml(value: TomlValue, items: Seq<TypeInner>, ty_id: int) -> Result<
    ValueModel,
    ValueError,
> {
    if ty_id < 0 || ty_id >= items.len() {
        Err(ValueError::MissingItem)
    } else {
        match items[ty_id] {
            TypeInner::Primitive(p) => match scalar_from_toml(value, p) {
                Ok(x) => Ok(ValueModel::Scalar(x)),
                Err(e) => Err(e),
            },
            TypeInner::Vec(v) => match element_primitive(items, v as int, false) {
                Err(e) => Err(e),
                Ok(p) => match value {
                    TomlValue::Array(arr) => match scalars_from_toml(arr@, p) {
                        Ok(xs) => Ok(ValueModel::Vec(xs)),
                        Err(e) => Err(e),
                    },
                    _ => Err(ValueError::ExpectedArray),
                },
            },
            TypeInner::Option(o) => match element_primitive(items, o as int, true) {
                Err(e) => Err(e),
                Ok(p) => match value {
                    TomlValue::Array(arr) => if arr@.len() > 1 {
                        Err(ValueError::OptionTooLong)
                    } else if arr@.len() == 0 {
                        Ok(ValueModel::Option(None))
                    } else {
                        match scalar_from_toml(arr@[0], p) {
                            Ok(x) => Ok(ValueModel::Option(Some(x))),
                            Err(e) => Err(e),
                        }
                    },
                    _ => Err(ValueError::ExpectedArray),
                },
            },
            TypeInner::Enum(members) => match value {
                TomlValue::String(variant) => match first_member_named(members@, variant@) {
                    Some(i) => Ok(ValueModel::Enum(ty_id as usize, members@[i].0)),
                    None => Err(ValueError::UnknownEnumVariant),
                },
                _ => Err(ValueError::ExpectedEnumVariantString),
            },
        }
    }
}

/// A `Value` with its vector held as a sequence.
pub enum ValueModel {
    Scalar(ScalarValue),
    Vec(Seq<ScalarValue>),
    Option(Option<ScalarValue>),
    Enum(usize, String),
}

impl View for Value {
    type V = ValueModel;

    open spec fn view(&self) -> ValueModel {
        match self {
            Value::Scalar(x) => ValueModel::Scalar(*x),
            Value::Vec(xs) => ValueModel::Vec(xs@),
            Value::Option(x) => ValueModel::Option(*x),
            Value::Enum(id, name) => ValueModel::Enum(*id, *name),
        }
    }
}

/// Every element that an in-order conversion of `elems` reaches (each one whose
/// predecessors all converted) is `scalar_convertible`.
pub open spec fn elements_convertible(elems: Seq<TomlValue>, ty: PrimitiveType) -> bool {
    forall|i: int|
        0 <= i < elems.len() && (#[trigger] scalars_from_toml(elems.take(i), ty)) is Ok
            ==> scalar_convertible(elems[i], ty)
}

/// The inputs on which converting `value` against `ty_id` neither panics nor
/// involves floating-point numbers: every value that the conversion reaches
/// is `scalar_convertible` (for a vector, each element whose predecessors all
/// converted).
pub open spec fn value_convertible(value: TomlValue, items: Seq<TypeInner>, ty_id: int) -> bool {
    0 <= ty_id < items.len() ==> match items[ty_id] {
        TypeInner::Primitive(p) => scalar_convertible(value, p),
        TypeInner::Vec(v) => match element_primitive(items, v as int, false) {
            Ok(p) => value matches TomlValue::Array(arr) ==> elements_convertible(arr@, p),
            Err(_) => true,
        },
        TypeInner::Option(o) => match element_primitive(items, o as int, true) {
            Ok(p) => value matches TomlValue::Array(arr) ==> (arr@.len() == 1
                ==> scalar_convertible(arr@[0], p)),
            Err(_) => true,
        },
        TypeInner::Enum(_) => true,
    }
}

proof fn lemma_scalars_ok(elems: Seq<TomlValue>, ty: PrimitiveType)
    ensures
        scalars_from_toml(elems, ty) matches Ok(xs) ==> xs.len() == elems.len() && forall|i: int|
            0 <= i < elems.len() ==> scalar_from_toml(#[trigger] elems[i], ty) == Ok::<
                ScalarValue,
                ValueError,
            >(xs[i]),
        (exists|i: int| 0 <= i < elems.len() && (#[trigger] scalar_from_toml(elems[i], ty)) is Err)
            ==> scalars_from_toml(elems, ty) is Err,
    decreases elems.len(),
{
    if elems.len() > 0 {
        let init = elems.drop_last();
        lemma_scalars_ok(init, ty);
        assert forall|i: int| 0 <= i < init.len() implies init[i] == elems[i] by {}
        if exists|i: int| 0 <= i < elems.len() && (#[trigger] scalar_from_toml(elems[i], ty)) is Err {
            let i = choose|i: int|
                0 <= i < elems.len() && (#[trigger] scalar_from_toml(elems[i], ty)) is Err;
            if i < init.len() {
                assert(scalar_from_toml(init[i], ty) is Err);
            }
        }
    }
}

/// A primitive type item converts a value as that primitive does.
pub proof fn law_primitive_item_converts_as_scalar(
    value: TomlValue,
    items: Seq<TypeInner>,
    ty_id: int,
    p: PrimitiveType,
)
    requires
        0 <= ty_id < items.len(),
        items[ty_id] == TypeInner::Primitive(p),
    ensures
        value_from_toml(value, items, ty_id) == match scalar_from_toml(value, p) {
            Ok(x) => Ok(ValueModel::Scalar(x)),
            Err(e) => Err::<ValueModel, ValueError>(e),
        },
{
}

/// A vector type item with primitive elements `p` converts only arrays: on
/// success every element converted as `p` does, in order, with none left out,
/// and a single element that fails to convert fails the whole value.
pub proof fn law_vector_item_converts_every_element(
    value: TomlValue,
    items: Seq<TypeInner>,
    ty_id: int,
    v: usize,
    p: PrimitiveType,
)
    requires
        0 <= ty_id < items.len(),
        items[ty_id] == TypeInner::Vec(v),
        element_primitive(items, v as int, false) == Ok::<PrimitiveType, ValueError>(p),
    ensures
        !(value is Array) ==> value_from_toml(value, items, ty_id) == Err::<ValueModel, ValueError>(
            ValueError::ExpectedArray,
        ),
        value matches TomlValue::Array(arr) ==> {
            &&& (value_from_toml(value, items, ty_id) matches Ok(r) ==> (r matches ValueModel::Vec(
                xs,
            ) && xs.len() == arr@.len() && forall|i: int|
                0 <= i < arr@.len() ==> scalar_from_toml(#[trigger] arr@[i], p) == Ok::<
                    ScalarValue,
                    ValueError,
                >(xs[i])))
            &&& ((exists|i: int|
                0 <= i < arr@.len() && (#[trigger] scalar_from_toml(arr@[i], p)) is Err)
                ==> value_from_toml(value, items, ty_id) is Err)
        },
{
    if let TomlValue::Array(arr) = value {
        lemma_scalars_ok(arr@, p);
    }
}

/// An option type item with primitive element `p` converts only arrays of at
/// most one element: the empty array to `None`, a single element to `Some` of
/// its conversion as `p`.
pub proof fn law_option_item_converts_at_most_one(
    value: TomlValue,
    items: Seq<TypeInner>,
    ty_id: int,
    o: usize,
    p: PrimitiveType,
)
    requires
        0 <= ty_id < items.len(),
        items[ty_id] == TypeInner::Option(o),
        element_primitive(items, o as int, true) == Ok::<PrimitiveType, ValueError>(p),
    ensures
        !(value is Array) ==> value_from_toml(value, items, ty_id) == Err::<ValueModel, ValueError>(
            ValueError::ExpectedArray,
        ),
        value matches TomlValue::Array(arr) ==> {
            &&& (arr@.len() >= 2 ==> value_from_toml(value, items, ty_id) == Err::<
                ValueModel,
                ValueError,
            >(ValueError::OptionTooLong))
            &&& (arr@.len() == 0 ==> value_from_toml(value, items, ty_id) == Ok::<
                ValueModel,
                ValueError,
            >(ValueModel::Option(None)))
            &&& (arr@.len() == 1 ==> value_from_toml(value, items, ty_id) == match scalar_from_toml(
                arr@[0],
                p,
            ) {
                Ok(x) => Ok(ValueModel::Option(Some(x))),
                Err(e) => Err::<ValueModel, ValueError>(e),
            })
        },
{
}

/// The type item is looked up first: a missing item fails with
/// `MissingItem`; a vector (option) item must name a vector (option) item
/// whose element names a primitive, else `ExpectedVecType`
/// (`ExpectedOptionType`), `MissingItem` or `ExpectedPrimitiveType`.
pub proof fn law_type_items_are_looked_up_in_order(
    value: TomlValue,
    items: Seq<TypeInner>,
    ty_id: int,
)
    ensures
        !(0 <= ty_id < items.len()) ==> value_from_toml(value, items, ty_id) == Err::<
            ValueModel,
            ValueError,
        >(ValueError::MissingItem),
        0 <= ty_id < items.len() ==> match items[ty_id] {
            TypeInner::Vec(v) => {
                &&& v >= items.len() ==> value_from_toml(value, items, ty_id) == Err::<
                    ValueModel,
                    ValueError,
                >(ValueError::MissingItem)
                &&& (v < items.len() && !(items[v as int] is Vec)) ==> value_from_toml(
                    value,
                    items,
                    ty_id,
                ) == Err::<ValueModel, ValueError>(ValueError::ExpectedVecType)
                &&& (v < items.len() && (items[v as int] matches TypeInner::Vec(e) && e < items.len()
                    && !(items[e as int] is Primitive))) ==> value_from_toml(value, items, ty_id)
                    == Err::<ValueModel, ValueError>(ValueError::ExpectedPrimitiveType)
            },
            TypeInner::Option(o) => {
                &&& o >= items.len() ==> value_from_toml(value, items, ty_id) == Err::<
                    ValueModel,
                    ValueError,
                >(ValueError::MissingItem)
                &&& (o < items.len() && !(items[o as int] is Option)) ==> value_from_toml(
                    value,
                    items,
                    ty_id,
                ) == Err::<ValueModel, ValueError>(ValueError::ExpectedOptionType)
                &&& (o < items.len() && (items[o as int] matches TypeInner::Option(e) && e
                    < items.len() && !(items[e as int] is Primitive))) ==> value_from_toml(
                    value,
                    items,
                    ty_id,
                ) == Err::<ValueModel, ValueError>(ValueError::ExpectedPrimitiveType)
            },
            _ => true,
        },
{
}

proof fn lemma_first_member_exists(members: Seq<(String, String)>, name: Seq<char>, k: int)
    requires
        0 <= k < members.len(),
        members[k].0@ == name,
    ensures
        exists|i: int| is_first_member_named(members, name, i),
    decreases k,
{
    if exists|j: int| 0 <= j < k && (#[trigger] members[j]).0@ == name {
        let j = choose|j: int| 0 <= j < k && (#[trigger] members[j]).0@ == name;
        lemma_first_member_exists(members, name, j);
    } else {
        assert(is_first_member_named(members, name, k));
    }
}

/// An enum type item converts a string to the member with that name, whichever
/// member it is; only a string that names no member at all is refused, with
/// `UnknownEnumVariant`, and a value that is not a string with
/// `ExpectedEnumVariantString`.
pub proof fn law_enum_item_finds_any_member(
    value: TomlValue,
    items: Seq<TypeInner>,
    ty_id: int,
    members: Vec<(String, String)>,
)
    requires
        0 <= ty_id < items.len(),
        ty_id <= usize::MAX,
        items[ty_id] == TypeInner::Enum(members),
    ensures
        value matches TomlValue::String(s) ==> {
            &&& (exists|i: int| 0 <= i < members@.len() && (#[trigger] members@[i]).0@ == s@)
                ==> (value_from_toml(value, items, ty_id) matches Ok(ValueModel::Enum(id, name))
                && id == ty_id && name@ == s@)
            &&& (forall|i: int| 0 <= i < members@.len() ==> (#[trigger] members@[i]).0@ != s@)
                ==> value_from_toml(value, items, ty_id) == Err::<ValueModel, ValueError>(
                ValueError::UnknownEnumVariant,
            )
        },
        !(value is String) ==> value_from_toml(value, items, ty_id) == Err::<ValueModel, ValueError>(
            ValueError::ExpectedEnumVariantString,
        ),
{
    if let TomlValue::String(s) = value {
        if exists|i: int| 0 <= i < members@.len() && (#[trigger] members@[i]).0@ == s@ {
            let k = choose|i: int| 0 <= i < members@.len() && (#[trigger] members@[i]).0@ == s@;
            lemma_first_member_exists(members@, s@, k);
            let f = choose|i: int| is_first_member_named(members@, s@, i);
            assert(is_first_member_named(members@, s@, f));
        } else {
            if exists|i: int| is_first_member_named(members@, s@, i) {
                let f = choose|i: int| is_first_member_named(members@, s@, i);
                assert(members@[f].0@ == s@);
            }
        }
    }
}

fn element_primitive_of(items: &ItemMap, id: usize, of_option: bool) -> (res: Result<
    PrimitiveType,
    ValueError,
>)
    ensures
        res == element_primitive(items.types@, id as int, of_option),
{
    let ty = items.get(id)?;
    let inner_id = match ty {
        TypeInner::Vec(e) => if of_option {
            None
        } else {
            Some(*e)
        },
        TypeInner::Option(e) => if of_option {
            Some(*e)
        } else {
            None
        },
        _ => None,
    };
    let inner_id = match inner_id {
        Some(e) => e,
        None => {
            return Err(
                if of_option {
                    ValueError::ExpectedOptionType
                } else {
                    ValueError::ExpectedVecType
                },
            );
        },
    };
    match items.get(inner_id)? {
        TypeInner::Primitive(p) => Ok(*p),
        _ => Err(ValueError::ExpectedPrimitiveType),
    }
}

fn scalars_from_array(arr: &Vec<TomlValue>, ty: PrimitiveType) -> (res: Result<Vec<ScalarValue>, ValueError>)
    requires
        elements_convertible(arr@, ty),
    ensures
        match scalars_from_toml(arr@, ty) {
            Ok(xs) => res matches Ok(r) && r@ == xs,
            Err(e) => res == Err::<Vec<ScalarValue>, ValueError>(e),
        },
{
    let mut out: Vec<ScalarValue> = Vec::new();
    let mut i: usize = 0;
    while i < arr.len()
        invariant
            i <= arr@.len(),
            elements_convertible(arr@, ty),
            scalars_from_toml(arr@.take(i as int), ty) == Ok::<Seq<ScalarValue>, ValueError>(out@),
        decreases arr.len() - i,
    {
        assert(arr@.take(i + 1).drop_last() =~= arr@.take(i as int));
        assert(arr@.take(i + 1).last() == arr@[i as int]);
        let x = ScalarValue::from_toml(&arr[i], ty);
        match x {
            Ok(x) => {
                out.push(x);
            },
            Err(e) => {
                proof {
                    lemma_scalars_error_extends(arr@, ty, (i + 1) as nat);
                }
                return Err(e);
            },
        }
        i = i + 1;
    }
    assert(arr@.take(arr@.len() as int) =~= arr@);
    Ok(out)
}

/// Once a prefix fails to convert, every longer prefix fails with the same error.
proof fn lemma_scalars_error_extends(elems: Seq<TomlValue>, ty: PrimitiveType, n: nat)
    requires
        n <= elems.len(),
        scalars_from_toml(elems.take(n as int), ty) is Err,
    ensures
        scalars_from_toml(elems, ty) == scalars_from_toml(elems.take(n as int), ty),
    decreases elems.len() - n,
{
    if n < elems.len() {
        let next = elems.take((n + 1) as int);
        assert(next.drop_last() =~= elems.take(n as int));
        lemma_scalars_error_extends(elems, ty, n + 1);
    } else {
        assert(elems.take(n as int) =~= elems);
    }
}

fn find_member(members: &Vec<(String, String)>, variant: &String) -> (res: Option<usize>)
    ensures
        res matches Some(i) ==> i < members@.len() && first_member_named(members@, variant@) == Some(
            i as int,
        ),
        res is None ==> first_member_named(members@, variant@) is None,
{
    let mut i: usize = 0;
    while i < members.len()
        invariant
            i <= members@.len(),
            forall|j: int| 0 <= j < i ==> (#[trigger] members@[j]).0@ != variant@,
        decreases members.len() - i,
    {
        if members[i].0 == *variant {
            proof {
                assert(is_first_member_named(members@, variant@, i as int));
                let k = first_member_named(members@, variant@)->0;
                assert(k == i) by {
                    if k < i {
                        assert(members@[k].0@ != variant@);
                    } else if k > i {
                        assert(members@[i as int].0@ != variant@);
                    }
                }
            }
            return Some(i);
        }
        i = i + 1;
    }
    None
}

impl Value {
    /// Converts a TOML value against the type item `ty_id`.
    pub fn from_toml(value: &TomlValue, items: &ItemMap, ty_id: usize) -> (res: Result<Value, ValueError>)
        requires
            value_convertible(*value, items.types@, ty_id as int),
        ensures
            match value_from_toml(*value, items.types@, ty_id as int) {
                Ok(m) => res matches Ok(r) && r@ == m,
                Err(e) => res == Err::<Value, ValueError>(e),
            },
    {
        let ty = items.get(ty_id)?;
        match ty {
            TypeInner::Primitive(pt) => Ok(Value::Scalar(ScalarValue::from_toml(value, *pt)?)),
            TypeInner::Vec(v) => {
                let inner_ty = element_primitive_of(items, *v, false)?;
                match value {
                    TomlValue::Array(arr) => Ok(Value::Vec(scalars_from_array(arr, inner_ty)?)),
                    _ => Err(ValueError::ExpectedArray),
                }
            },
            TypeInner::Option(o) => {
                let inner_ty = element_primitive_of(items, *o, true)?;
                match value {
                    TomlValue::Array(arr) => {
                        if arr.len() > 1 {
                            return Err(ValueError::OptionTooLong);
                        }
                        if arr.len() == 0 {
                            Ok(Value::Option(None))
                        } else {
                            Ok(Value::Option(Some(ScalarValue::from_toml(&arr[0], inner_ty)?)))
                        }
                    },
                    _ => Err(ValueError::ExpectedArray),
                }
            },
            TypeInner::Enum(members) => match value {
                TomlValue::String(variant) => match find_member(members, variant) {
                    Some(i) => {
                        let name = members[i].0.clone();
                        Ok(Value::Enum(ty_id, name))
                    },
                    None => Err(ValueError::UnknownEnumVariant),
                },
                _ => Err(ValueError::ExpectedEnumVariantString),
            },
        }
    }
}

// ----- values awaiting their type -----

/// A component value as written in a manifest, before or after conversion.
#[derive(Debug, PartialEq)]
pub enum ResolvableValue {
    Unresolved(TomlValue),
    Resolved(Value),
}

/// What `resolve` does: a resolved value stays as it is and the call
/// succeeds; an unresolved one is replaced by its conversion, or left as it is
/// when the conversion fails with that error.
pub open spec fn resolves_to(
    before: ResolvableValue,
    items: Seq<TypeInner>,
    id: int,
    after: ResolvableValue,
    res: Result<(), ValueError>,
) -> bool {
    match before {
        ResolvableValue::Resolved(_) => res is Ok && after == before,
        ResolvableValue::Unresolved(v) => match value_from_toml(v, items, id) {
            Ok(m) => res is Ok && (after matches ResolvableValue::Resolved(r) && r@ == m),
            Err(e) => res == Err::<(), ValueError>(e) && after == before,
        },
    }
}

/// Resolution settles a value: once a resolve has succeeded, any later
/// resolve, against any items and type, succeeds and changes nothing.
pub proof fn law_resolution_settles(
    a: ResolvableValue,
    items1: Seq<TypeInner>,
    id1: int,
    b: ResolvableValue,
    r1: Result<(), ValueError>,
    items2: Seq<TypeInner>,
    id2: int,
    c: ResolvableValue,
    r2: Result<(), ValueError>,
)
    requires
        resolves_to(a, items1, id1, b, r1),
        r1 is Ok,
        resolves_to(b, items2, id2, c, r2),
    ensures
        b is Resolved,
        c == b,
        r2 is Ok,
{
}

/// A resolve of an unresolved value whose conversion succeeds succeeds and
/// leaves the converted value.
pub proof fn law_resolution_stores_the_conversion(
    t: TomlValue,
    items: Seq<TypeInner>,
    id: int,
    after: ResolvableValue,
    res: Result<(), ValueError>,
    m: ValueModel,
)
    requires
        resolves_to(ResolvableValue::Unresolved(t), items, id, after, res),
        value_from_toml(t, items, id) == Ok::<ValueModel, ValueError>(m),
    ensures
        res is Ok,
        after matches ResolvableValue::Resolved(r) && r@ == m,
{
}

/// A resolve whose conversion fails hands back that error and leaves the
/// value unresolved as it was.
pub proof fn law_failed_resolution_changes_nothing(
    t: TomlValue,
    items: Seq<TypeInner>,
    id: int,
    after: ResolvableValue,
    res: Result<(), ValueError>,
    e: ValueError,
)
    requires
        resolves_to(ResolvableValue::Unresolved(t), items, id, after, res),
        value_from_toml(t, items, id) == Err::<ValueModel, ValueError>(e),
    ensures
        res == Err::<(), ValueError>(e),
        after == ResolvableValue::Unresolved(t),
{
}

impl ResolvableValue {
    /// Converts an unresolved value against the type item `id`; a value that
    /// is already resolved is left as it is. On failure nothing changes.
    pub fn resolve(&mut self, items: &ItemMap, id: usize) -> (res: Result<(), ValueError>)
        requires
            *old(self) matches ResolvableValue::Unresolved(v) ==> value_convertible(
                v,
                items.types@,
                id as int,
            ),
        ensures
            resolves_to(*old(self), items.types@, id as int, *final(self), res),
    {
        let converted = match &*self {
            ResolvableValue::Unresolved(value) => Value::from_toml(value, items, id)?,
            ResolvableValue::Resolved(_) => {
                return Ok(());
            },
        };
        *self = ResolvableValue::Resolved(converted);
        Ok(())
    }

    /// The converted value, if there is one.
    pub fn as_resolved(&self) -> (res: Option<&Value>)
        ensures
            match self {
                ResolvableValue::Resolved(v) => res == Some(v),
                ResolvableValue::Unresolved(_) => res is None,
            },
    {
        match self {
            ResolvableValue::Resolved(value) => Some(value),
            _ => None,
        }
    }
}

// ----- display -----

pub open spec fn digit_char(d: int) -> char {
    seq!['0', '1', '2', '3', '4', '5', '6', '7', '8', '9'][d]
}

/// The decimal digits of `n`.
pub open spec fn decimal(n: nat) -> Seq<char>
    decreases n,
{
    if n < 10 {
        seq![digit_char(n as int)]
    } else {
        decimal(n / 10).push(digit_char((n % 10) as int))
    }
}

/// An integer in decimal, with a leading `-` when it is negative.
pub open spec fn int_text(i: int) -> Seq<char> {
    if i < 0 {
        seq!['-'] + decimal((-i) as nat)
    } else {
        decimal(i as nat)
    }
}

/// How the standard `Debug` formatting writes a string: quoted, with escapes.
pub uninterp spec fn debug_text(s: Seq<char>) -> Seq<char>;

/// Calls the standard `Debug` formatting of `str` (`format!("{:?}", s)`).
/// Claimed: the text depends on the string alone and is `debug_text` of it.
#[verifier::external_body]
fn debug_quoted(s: &str) -> (res: String)
    ensures
        res@ == debug_text(s@),
{
    format!("{:?}", s)
}

/// How a scalar is shown: as its `Debug` form.
pub open spec fn scalar_text(v: ScalarValue) -> Seq<char> {
    match v {
        ScalarValue::Empty => "()"@,
        ScalarValue::Bool(b) => if b {
            "true"@
        } else {
            "false"@
        },
        ScalarValue::EntityId(n) => decimal(n as nat),
        ScalarValue::String(s) => debug_text(s@),
        ScalarValue::U8(x) => decimal(x as nat),
        ScalarValue::U16(x) => decimal(x as nat),
        ScalarValue::U32(x) => decimal(x as nat),
        ScalarValue::U64(x) => decimal(x as nat),
        ScalarValue::I8(x) => int_text(x as int),
        ScalarValue::I16(x) => int_text(x as int),
        ScalarValue::I32(x) => int_text(x as int),
        ScalarValue::I64(x) => int_text(x as int),
        ScalarValue::Uvec2(v) => "UVec2("@ + decimal(v.x as nat) + ", "@ + decimal(v.y as nat) + ")"@,
        ScalarValue::Uvec3(v) => "UVec3("@ + decimal(v.x as nat) + ", "@ + decimal(v.y as nat) + ", "@
            + decimal(v.z as nat) + ")"@,
        ScalarValue::Uvec4(v) => "UVec4("@ + decimal(v.x as nat) + ", "@ + decimal(v.y as nat) + ", "@
            + decimal(v.z as nat) + ", "@ + decimal(v.w as nat) + ")"@,
        ScalarValue::Ivec2(v) => "IVec2("@ + int_text(v.x as int) + ", "@ + int_text(v.y as int) + ")"@,
        ScalarValue::Ivec3(v) => "IVec3("@ + int_text(v.x as int) + ", "@ + int_text(v.y as int) + ", "@
            + int_text(v.z as int) + ")"@,
        ScalarValue::Ivec4(v) => "IVec4("@ + int_text(v.x as int) + ", "@ + int_text(v.y as int) + ", "@
            + int_text(v.z as int) + ", "@ + int_text(v.w as int) + ")"@,
    }
}

/// Scalars shown one after the other, separated by `, `.
pub open spec fn scalars_text(xs: Seq<ScalarValue>) -> Seq<char>
    decreases xs.len(),
{
    if xs.len() == 0 {
        Seq::empty()
    } else if xs.len() == 1 {
        scalar_text(xs[0])
    } else {
        scalars_text(xs.drop_last()) + ", "@ + scalar_text(xs.last())
    }
}

/// How a value is shown; an enum value as `{type}::{variant}`, with the type
/// shown as `enum_type_label`.
pub open spec fn value_text(v: ValueModel, enum_type_label: Seq<char>) -> Seq<char> {
    match v {
        ValueModel::Scalar(x) => scalar_text(x),
        ValueModel::Vec(xs) => "["@ + scalars_text(xs) + "]"@,
        ValueModel::Option(o) => match o {
            Some(x) => "Some("@ + scalar_text(x) + ")"@,
            None => "None"@,
        },
        ValueModel::Enum(_, name) => enum_type_label + "::"@ + name@,
    }
}

/// The value of a decimal digit character, -1 for any other character.
pub open spec fn digit_value(c: char) -> int {
    if c == '0' {
        0
    } else if c == '1' {
        1
    } else if c == '2' {
        2
    } else if c == '3' {
        3
    } else if c == '4' {
        4
    } else if c == '5' {
        5
    } else if c == '6' {
        6
    } else if c == '7' {
        7
    } else if c == '8' {
        8
    } else if c == '9' {
        9
    } else {
        -1
    }
}

/// The number written by a string of decimal digits.
pub open spec fn digits_value(t: Seq<char>) -> int
    decreases t.len(),
{
    if t.len() == 0 {
        0
    } else {
        digits_value(t.drop_last()) * 10 + digit_value(t.last())
    }
}

/// `t` is a canonical decimal numeral: digits only, at least one, and no
/// leading zero unless it is the single digit `0`.
pub open spec fn is_numeral(t: Seq<char>) -> bool {
    &&& t.len() > 0
    &&& forall|k: int| 0 <= k < t.len() ==> 0 <= #[trigger] digit_value(t[k])
    &&& (t[0] == '0' ==> t.len() == 1)
}

/// `t` shows the integer `i` as its `Debug` form does: a canonical numeral of
/// `|i|`, after a `-` when `i` is negative.
pub open spec fn shows_integer(t: Seq<char>, i: int) -> bool {
    if i < 0 {
        t.len() > 0 && t[0] == '-' && is_numeral(t.drop_first()) && digits_value(t.drop_first()) == -i
    } else {
        is_numeral(t) && digits_value(t) == i
    }
}

proof fn lemma_decimal_numeral(n: nat)
    ensures
        is_numeral(decimal(n)),
        digits_value(decimal(n)) == n,
        n >= 1 ==> decimal(n)[0] != '0',
    decreases n,
{
    let ds = seq!['0', '1', '2', '3', '4', '5', '6', '7', '8', '9'];
    assert(forall|d: int| 0 <= d < 10 ==> digit_value(#[trigger] ds[d]) == d);
    if n < 10 {
        assert(digit_value(digit_char(n as int)) == n);
        assert(decimal(n).drop_last() =~= Seq::<char>::empty());
        assert(digits_value(decimal(n)) == digits_value(Seq::<char>::empty()) * 10 + digit_value(decimal(n).last()));
    } else {
        let q = (n / 10) as nat;
        lemma_decimal_numeral(q);
        let t = decimal(n);
        assert(t == decimal(q).push(digit_char((n % 10) as int)));
        assert(t.drop_last() =~= decimal(q));
        assert(digit_value(digit_char((n % 10) as int)) == n % 10);
        assert(t.last() == digit_char((n % 10) as int));
        assert(digits_value(t) == digits_value(decimal(q)) * 10 + digit_value(t.last()));
        assert(q * 10 + n % 10 == n);
        assert forall|k: int| 0 <= k < t.len() implies 0 <= #[trigger] digit_value(t[k]) by {
            if k < t.len() - 1 {
                assert(t[k] == decimal(q)[k]);
            }
        }
        assert(t[0] == decimal(q)[0]);
    }
}

/// Integers are shown in decimal, as their `Debug` forms are: the canonical
/// numeral of the integer, with a `-` before negative ones.
pub proof fn law_integers_show_in_decimal(v: ScalarValue)
    ensures
        v matches ScalarValue::U8(x) ==> shows_integer(scalar_text(v), x as int),
        v matches ScalarValue::U16(x) ==> shows_integer(scalar_text(v), x as int),
        v matches ScalarValue::U32(x) ==> shows_integer(scalar_text(v), x as int),
        v matches ScalarValue::U64(x) ==> shows_integer(scalar_text(v), x as int),
        v matches ScalarValue::EntityId(x) ==> shows_integer(scalar_text(v), x as int),
        v matches ScalarValue::I8(x) ==> shows_integer(scalar_text(v), x as int),
        v matches ScalarValue::I16(x) ==> shows_integer(scalar_text(v), x as int),
        v matches ScalarValue::I32(x) ==> shows_integer(scalar_text(v), x as int),
        v matches ScalarValue::I64(x) ==> shows_integer(scalar_text(v), x as int),
{
    let i: int = match v {
        ScalarValue::U8(x) => x as int,
        ScalarValue::U16(x) => x as int,
        ScalarValue::U32(x) => x as int,
        ScalarValue::U64(x) => x as int,
        ScalarValue::EntityId(x) => x as int,
        ScalarValue::I8(x) => x as int,
        ScalarValue::I16(x) => x as int,
        ScalarValue::I32(x) => x as int,
        ScalarValue::I64(x) => x as int,
        _ => 0,
    };
    if i < 0 {
        lemma_decimal_numeral((-i) as nat);
        assert((seq!['-'] + decimal((-i) as nat)).drop_first() =~= decimal((-i) as nat));
    } else {
        lemma_decimal_numeral(i as nat);
    }
}

/// How values are shown, piece by piece: a vector is its elements' texts
/// between brackets, separated by `, ` (adding an element after others puts
/// `, ` and its text before the closing bracket); an option is `Some(..)`
/// around its element or `None`; an enum value is its type, `::` and its
/// variant; booleans are `true` and `false`; the empty value is `()`.
pub proof fn law_values_show_piece_by_piece(xs: Seq<ScalarValue>, x: ScalarValue, label: Seq<char>, name: String)
    ensures
        value_text(ValueModel::Vec(Seq::empty()), label) == "[]"@,
        value_text(ValueModel::Vec(seq![x]), label) == "["@ + scalar_text(x) + "]"@,
        xs.len() > 0 ==> value_text(ValueModel::Vec(xs.push(x)), label) == value_text(
            ValueModel::Vec(xs),
            label,
        ).drop_last() + ", "@ + scalar_text(x) + "]"@,
        value_text(ValueModel::Option(Some(x)), label) == "Some("@ + scalar_text(x) + ")"@,
        value_text(ValueModel::Option(None), label) == "None"@,
        value_text(ValueModel::Enum(0, name), label) == label + "::"@ + name@,
        value_text(ValueModel::Scalar(x), label) == scalar_text(x),
        scalar_text(ScalarValue::Bool(true)) == "true"@,
        scalar_text(ScalarValue::Bool(false)) == "false"@,
        scalar_text(ScalarValue::Empty) == "()"@,
{
    reveal_strlit("]");
    let vs = xs.push(x);
    if xs.len() > 0 {
        assert(vs.drop_last() =~= xs);
        let t = "["@ + scalars_text(xs) + "]"@;
        assert(t.drop_last() =~= "["@ + scalars_text(xs));
        assert(value_text(ValueModel::Vec(vs), label) =~= t.drop_last() + ", "@ + scalar_text(x) + "]"@);
    }
    assert(seq![x].len() == 1);
    assert(scalars_text(Seq::<ScalarValue>::empty()) == Seq::<char>::empty());
    assert(value_text(ValueModel::Vec(Seq::empty()), label) =~= "["@ + "]"@);
    reveal_strlit("[");
    reveal_strlit("[]");
    assert("["@ + "]"@ =~= "[]"@);
}

/// Integer vectors are shown as their type's name around their components,
/// each shown as the integer it is, separated by `, `.
pub proof fn law_integer_vectors_show_their_components(u: UVec4, i: IVec4)
    ensures
        scalar_text(ScalarValue::Uvec2(UVec2 { x: u.x, y: u.y })) == "UVec2("@ + scalar_text(
            ScalarValue::U32(u.x),
        ) + ", "@ + scalar_text(ScalarValue::U32(u.y)) + ")"@,
        scalar_text(ScalarValue::Uvec3(UVec3 { x: u.x, y: u.y, z: u.z })) == "UVec3("@ + scalar_text(
            ScalarValue::U32(u.x),
        ) + ", "@ + scalar_text(ScalarValue::U32(u.y)) + ", "@ + scalar_text(ScalarValue::U32(u.z))
            + ")"@,
        scalar_text(ScalarValue::Uvec4(u)) == "UVec4("@ + scalar_text(ScalarValue::U32(u.x)) + ", "@
            + scalar_text(ScalarValue::U32(u.y)) + ", "@ + scalar_text(ScalarValue::U32(u.z)) + ", "@
            + scalar_text(ScalarValue::U32(u.w)) + ")"@,
        scalar_text(ScalarValue::Ivec2(IVec2 { x: i.x, y: i.y })) == "IVec2("@ + scalar_text(
            ScalarValue::I32(i.x),
        ) + ", "@ + scalar_text(ScalarValue::I32(i.y)) + ")"@,
        scalar_text(ScalarValue::Ivec3(IVec3 { x: i.x, y: i.y, z: i.z })) == "IVec3("@ + scalar_text(
            ScalarValue::I32(i.x),
        ) + ", "@ + scalar_text(ScalarValue::I32(i.y)) + ", "@ + scalar_text(ScalarValue::I32(i.z))
            + ")"@,
        scalar_text(ScalarValue::Ivec4(i)) == "IVec4("@ + scalar_text(ScalarValue::I32(i.x)) + ", "@
            + scalar_text(ScalarValue::I32(i.y)) + ", "@ + scalar_text(ScalarValue::I32(i.z)) + ", "@
            + scalar_text(ScalarValue::I32(i.w)) + ")"@,
{
}

fn digit_str(d: u128) -> (res: &'static str)
    requires
        d < 10,
    ensures
        res@ == seq![digit_char(d as int)],
{
    proof {
        reveal_strlit("0");
        reveal_strlit("1");
        reveal_strlit("2");
        reveal_strlit("3");
        reveal_strlit("4");
        reveal_strlit("5");
        reveal_strlit("6");
        reveal_strlit("7");
        reveal_strlit("8");
        reveal_strlit("9");
    }
    let r = if d == 0 {
        "0"
    } else if d == 1 {
        "1"
    } else if d == 2 {
        "2"
    } else if d == 3 {
        "3"
    } else if d == 4 {
        "4"
    } else if d == 5 {
        "5"
    } else if d == 6 {
        "6"
    } else if d == 7 {
        "7"
    } else if d == 8 {
        "8"
    } else {
        "9"
    };
    assert(r@ =~= seq![digit_char(d as int)]);
    r
}

/// Appends `n` in decimal.
pub(crate) fn push_decimal(out: &mut String, n: u128)
    ensures
        final(out)@ == old(out)@ + decimal(n as nat),
    decreases n,
{
    if n >= 10 {
        push_decimal(out, n / 10);
    }
    out.append(digit_str(n % 10));
    assert(out@ =~= old(out)@ + decimal(n as nat));
}

/// Appends `i` in decimal, with a leading `-` when it is negative.
fn push_int(out: &mut String, i: i64)
    ensures
        final(out)@ == old(out)@ + int_text(i as int),
{
    if i < 0 {
        out.append("-");
        proof {
            reveal_strlit("-");
        }
        let magnitude: i128 = -(i as i128);
        push_decimal(out, magnitude as u128);
        assert(final(out)@ =~= old(out)@ + int_text(i as int));
    } else {
        push_decimal(out, i as u128);
    }
}

fn push_scalar(out: &mut String, v: &ScalarValue)
    ensures
        final(out)@ == old(out)@ + scalar_text(*v),
{
    let ghost start = out@;
    match v {
        ScalarValue::Empty => out.append("()"),
        ScalarValue::Bool(b) => if *b {
            out.append("true")
        } else {
            out.append("false")
        },
        ScalarValue::EntityId(n) => push_decimal(out, *n),
        ScalarValue::String(s) => {
            let q = debug_quoted(s.as_str());
            out.append(q.as_str());
        },
        ScalarValue::U8(x) => push_decimal(out, *x as u128),
        ScalarValue::U16(x) => push_decimal(out, *x as u128),
        ScalarValue::U32(x) => push_decimal(out, *x as u128),
        ScalarValue::U64(x) => push_decimal(out, *x as u128),
        ScalarValue::I8(x) => push_int(out, *x as i64),
        ScalarValue::I16(x) => push_int(out, *x as i64),
        ScalarValue::I32(x) => push_int(out, *x as i64),
        ScalarValue::I64(x) => push_int(out, *x),
        ScalarValue::Uvec2(c) => {
            out.append("UVec2(");
            push_decimal(out, c.x as u128);
            out.append(", ");
            push_decimal(out, c.y as u128);
            out.append(")");
        },
        ScalarValue::Uvec3(c) => {
            out.append("UVec3(");
            push_decimal(out, c.x as u128);
            out.append(", ");
            push_decimal(out, c.y as u128);
            out.append(", ");
            push_decimal(out, c.z as u128);
            out.append(")");
        },
        ScalarValue::Uvec4(c) => {
            out.append("UVec4(");
            push_decimal(out, c.x as u128);
            out.append(", ");
            push_decimal(out, c.y as u128);
            out.append(", ");
            push_decimal(out, c.z as u128);
            out.append(", ");
            push_decimal(out, c.w as u128);
            out.append(")");
        },
        ScalarValue::Ivec2(c) => {
            out.append("IVec2(");
            push_int(out, c.x as i64);
            out.append(", ");
            push_int(out, c.y as i64);
            out.append(")");
        },
        ScalarValue::Ivec3(c) => {
            out.append("IVec3(");
            push_int(out, c.x as i64);
            out.append(", ");
            push_int(out, c.y as i64);
            out.append(", ");
            push_int(out, c.z as i64);
            out.append(")");
        },
        ScalarValue::Ivec4(c) => {
            out.append("IVec4(");
            push_int(out, c.x as i64);
            out.append(", ");
            push_int(out, c.y as i64);
            out.append(", ");
            push_int(out, c.z as i64);
            out.append(", ");
            push_int(out, c.w as i64);
            out.append(")");
        },
    }
    assert(out@ =~= start + scalar_text(*v));
}

impl Value {
    /// The value as it is shown to users; `enum_type_label` is how the type of an
    /// enum value is shown.
    pub fn display(&self, enum_type_label: &str) -> (res: String)
        ensures
            res@ == value_text(self@, enum_type_label@),
    {
        let mut out = String::new();
        match self {
            Value::Scalar(v) => push_scalar(&mut out, v),
            Value::Vec(vs) => {
                out.append("[");
                let ghost open_len = out@.len();
                let mut i: usize = 0;
                while i < vs.len()
                    invariant
                        i <= vs@.len(),
                        out@ == "["@ + scalars_text(vs@.take(i as int)),
                    decreases vs.len() - i,
                {
                    let ghost before = out@;
                    if i != 0 {
                        out.append(", ");
                    }
                    push_scalar(&mut out, &vs[i]);
                    proof {
                        let t = vs@.take(i + 1);
                        assert(t.drop_last() =~= vs@.take(i as int));
                        assert(t.last() == vs@[i as int]);
                        if i == 0 {
                            assert(vs@.take(0) =~= Seq::<ScalarValue>::empty());
                            assert(out@ =~= "["@ + scalars_text(t));
                        } else {
                            assert(out@ =~= "["@ + scalars_text(t));
                        }
                    }
                    i = i + 1;
                }
                out.append("]");
                assert(vs@.take(vs@.len() as int) =~= vs@);
            },
            Value::Option(o) => match o {
                Some(v) => {
                    out.append("Some(");
                    push_scalar(&mut out, v);
                    out.append(")");
                },
                None => out.append("None"),
            },
            Value::Enum(_, name) => {
                out.append(enum_type_label);
                out.append("::");
                out.append(name.as_str());
            },
        }
        assert(out@ =~= value_text(self@, enum_type_label@));
        out
    }
}

} // verus!
