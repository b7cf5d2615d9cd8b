//! Type descriptors: a small language that names the layout of a record,
//! such as `(f32,[u32;16])`. Parsing works on bytes and returns what it read
//! with the rest of the input; on failure it returns the input untouched.
use vstd::prelude::*;
use vstd::utf8::*;
use crate::wire::utf8_to_string;

verus! {

/// A scalar type: unsigned, signed or float, of a fixed bit width.
#[derive(Debug, Clone, Copy, PartialEq, Eq, Structural)]
pub enum PrimitiveType {
    U8,
    U16,
    U32,
    U64,
    I8,
    I16,
    I32,
    I64,
    F32,
    F64,
}

/// A field type: a scalar, a fixed-length array of scalars, or a vector of
/// scalars.
#[derive(Debug, Clone, Copy, PartialEq, Eq, Structural)]
pub enum Type {
    Primitive(PrimitiveType),
    Array(PrimitiveType, u64),
    Vector(PrimitiveType),
}

// ---------------------------------------------------------------------------
// The language, as functions on bytes

/// An ASCII decimal digit.
pub open spec fn is_digit(b: u8) -> bool {
    48 <= b <= 57
}

/// Length of the run of digits that starts `s`.
pub open spec fn digit_run(s: Seq<u8>) -> nat
    decreases s.len(),
{
    if s.len() > 0 && is_digit(s[0]) {
        1 + digit_run(s.drop_first())
    } else {
        0
    }
}

/// The value of a run of digits, read as a `u64` that wraps on overflow.
pub open spec fn digits_value(ds: Seq<u8>) -> u64
    decreases ds.len(),
{
    if ds.len() == 0 {
        0
    } else {
        ((digits_value(ds.drop_last()) * 10 + (ds.last() - 48)) % 0x1_0000_0000_0000_0000) as u64
    }
}

/// Reading a number: the value of the leading digits and how many there
/// are; nothing when `s` does not start with a digit.
pub open spec fn size_spec(s: Seq<u8>) -> Option<(u64, int)> {
    let n = digit_run(s);
    if n == 0 {
        None
    } else {
        Some((digits_value(s.subrange(0, n as int)), n as int))
    }
}

/// Reading the letter that starts a scalar type: `u`, `i` or `f`, one byte.
pub open spec fn prefix_spec(s: Seq<u8>) -> Option<(char, int)> {
    if s.len() == 0 {
        None
    } else if s[0] == 117 {
        Some(('u', 1))
    } else if s[0] == 105 {
        Some(('i', 1))
    } else if s[0] == 102 {
        Some(('f', 1))
    } else {
        None
    }
}

/// The scalar type that a letter and a bit width name, if any.
pub open spec fn primitive_of(prefix: char, size: u64) -> Option<PrimitiveType> {
    if prefix == 'u' && size == 8 {
        Some(PrimitiveType::U8)
    } else if prefix == 'u' && size == 16 {
        Some(PrimitiveType::U16)
    } else if prefix == 'u' && size == 32 {
        Some(PrimitiveType::U32)
    } else if prefix == 'u' && size == 64 {
        Some(PrimitiveType::U64)
    } else if prefix == 'i' && size == 8 {
        Some(PrimitiveType::I8)
    } else if prefix == 'i' && size == 16 {
        Some(PrimitiveType::I16)
    } else if prefix == 'i' && size == 32 {
        Some(PrimitiveType::I32)
    } else if prefix == 'i' && size == 64 {
        Some(PrimitiveType::I64)
    } else if prefix == 'f' && size == 32 {
        Some(PrimitiveType::F32)
    } else if prefix == 'f' && size == 64 {
        Some(PrimitiveType::F64)
    } else {
        None
    }
}

/// Reading a scalar type at the start of `s`, and how many bytes it takes.
/// The width must be one that the letter allows: `u11` is no scalar at all.
pub open spec fn primitive_spec(s: Seq<u8>) -> Option<(PrimitiveType, int)> {
    match prefix_spec(s) {
        None => None,
        Some((c, _)) => match size_spec(s.drop_first()) {
            None => None,
            Some((size, n)) => match primitive_of(c, size) {
                None => None,
                Some(p) => Some((p, 1 + n)),
            },
        },
    }
}

/// Reading `[` scalar `;` number `]` at the start of `s`.
pub open spec fn array_spec(s: Seq<u8>) -> Option<(Type, int)> {
    if s.len() == 0 || s[0] != 91 {
        None
    } else {
        match primitive_spec(s.drop_first()) {
            None => None,
            Some((p, n1)) => {
                let i = 1 + n1;
                if i >= s.len() || s[i] != 59 {
                    None
                } else {
                    match size_spec(s.subrange(i + 1, s.len() as int)) {
                        None => None,
                        Some((len, n2)) => {
                            let j = i + 1 + n2;
                            if j >= s.len() || s[j] != 93 {
                                None
                            } else {
                                Some((Type::Array(p, len), j + 1))
                            }
                        },
                    }
                }
            },
        }
    }
}

/// The bytes `Vec<`.
pub open spec fn vec_open() -> Seq<u8> {
    seq![86u8, 101u8, 99u8, 60u8]
}

/// Reading `Vec<` scalar `>` at the start of `s`.
pub open spec fn vector_spec(s: Seq<u8>) -> Option<(Type, int)> {
    if s.len() < 4 || s.subrange(0, 4) != vec_open() {
        None
    } else {
        match primitive_spec(s.subrange(4, s.len() as int)) {
            None => None,
            Some((p, n)) => {
                let i = 4 + n;
                if i >= s.len() || s[i] != 62 {
                    None
                } else {
                    Some((Type::Vector(p), i + 1))
                }
            },
        }
    }
}

/// Reading a field type at the start of `s`: a scalar, else an array, else
/// a vector.
#[verifier::opaque]
pub open spec fn type_spec(s: Seq<u8>) -> Option<(Type, int)> {
    match primitive_spec(s) {
        Some((p, n)) => Some((Type::Primitive(p), n)),
        None => match array_spec(s) {
            Some(r) => Some(r),
            None => vector_spec(s),
        },
    }
}

/// Reading the fields of a tuple after its `(`: field types separated by
/// `,` and closed by `)`.
pub open spec fn fields_spec(s: Seq<u8>) -> Option<(Seq<Type>, int)>
    decreases s.len(),
{
    match type_spec(s) {
        None => None,
        Some((t, n)) => if n <= 0 || n >= s.len() {
            None
        } else if s[n] == 41 {
            Some((seq![t], n + 1))
        } else if s[n] == 44 {
            match fields_spec(s.subrange(n + 1, s.len() as int)) {
                None => None,
                Some((ts, m)) => Some((seq![t] + ts, n + 1 + m)),
            }
        } else {
            None
        },
    }
}

/// Reading a tuple at the start of `s`.
pub open spec fn tuple_spec(s: Seq<u8>) -> Option<(Seq<Type>, int)> {
    if s.len() == 0 || s[0] != 40 {
        None
    } else {
        match fields_spec(s.drop_first()) {
            None => None,
            Some((ts, n)) => Some((ts, 1 + n)),
        }
    }
}

/// A reading takes at least one byte and no more than the input holds.
pub open spec fn within<T>(spec: Option<(T, int)>, len: int) -> bool {
    spec matches Some((_, n)) ==> 0 < n <= len
}

/// Reading a field type that makes up the whole of `s`.
pub open spec fn exact_type_spec(s: Seq<u8>) -> Option<Type> {
    match type_spec(s) {
        Some((t, n)) => if n == s.len() {
            Some(t)
        } else {
            None
        },
        None => None,
    }
}

// ---------------------------------------------------------------------------
// Rendering

/// The text of a scalar type.
pub open spec fn render_primitive(p: PrimitiveType) -> Seq<u8> {
    match p {
        PrimitiveType::U8 => seq![117u8, 56u8],
        PrimitiveType::U16 => seq![117u8, 49u8, 54u8],
        PrimitiveType::U32 => seq![117u8, 51u8, 50u8],
        PrimitiveType::U64 => seq![117u8, 54u8, 52u8],
        PrimitiveType::I8 => seq![105u8, 56u8],
        PrimitiveType::I16 => seq![105u8, 49u8, 54u8],
        PrimitiveType::I32 => seq![105u8, 51u8, 50u8],
        PrimitiveType::I64 => seq![105u8, 54u8, 52u8],
        PrimitiveType::F32 => seq![102u8, 51u8, 50u8],
        PrimitiveType::F64 => seq![102u8, 54u8, 52u8],
    }
}

/// The decimal digits of `n`, most significant first, with no leading zero.
pub open spec fn decimal(n: nat) -> Seq<u8>
    decreases n,
{
    if n < 10 {
        seq![(48 + n) as u8]
    } else {
        decimal(n / 10).push((48 + n % 10) as u8)
    }
}

/// The text of a field type.
pub open spec fn render_type(t: Type) -> Seq<u8> {
    match t {
        Type::Primitive(p) => render_primitive(p),
        Type::Array(p, n) => seq![91u8] + render_primitive(p) + seq![59u8] + decimal(n as nat) + seq![
            93u8,
        ],
        Type::Vector(p) => vec_open() + render_primitive(p) + seq![62u8],
    }
}

/// The texts of field types separated by `,`.
pub open spec fn render_fields(ts: Seq<Type>) -> Seq<u8>
    decreases ts.len(),
{
    if ts.len() == 0 {
        Seq::empty()
    } else if ts.len() == 1 {
        render_type(ts[0])
    } else {
        render_type(ts[0]) + seq![44u8] + render_fields(ts.drop_first())
    }
}

/// The text of a tuple.
pub open spec fn render_tuple(ts: Seq<Type>) -> Seq<u8> {
    seq![40u8] + render_fields(ts) + seq![41u8]
}

/// Bytes that are all ASCII.
pub open spec fn all_ascii(b: Seq<u8>) -> bool {
    forall|i: int| 0 <= i < b.len() ==> b[i] < 128
}

/// What a parser returns for `data` when the language reads `spec` there:
/// the value and the rest of the input, or nothing and the whole input.
pub open spec fn parsed_as<T>(r: Option<T>, rest: Seq<u8>, data: Seq<u8>, spec: Option<(T, int)>) -> bool {
    match spec {
        Some((v, n)) => r == Some(v) && rest == data.subrange(n, data.len() as int),
        None => r is None && rest == data,
    }
}

/// A run of digits is no longer than the input.
pub proof fn lemma_digit_run_len(s: Seq<u8>)
    ensures
        digit_run(s) <= s.len(),
    decreases s.len(),
{
    if s.len() > 0 {
        lemma_digit_run_len(s.drop_first());
    }
}

/// A run of digits that starts `s` and is followed by no digit has the
/// length that [`digit_run`] gives.
proof fn lemma_digit_run(s: Seq<u8>, i: int)
    requires
        0 <= i <= s.len(),
        forall|j: int| 0 <= j < i ==> is_digit(#[trigger] s[j]),
        i == s.len() || !is_digit(s[i]),
    ensures
        digit_run(s) == i,
    decreases i,
{
    if i > 0 {
        let t = s.drop_first();
        assert forall|j: int| 0 <= j < i - 1 implies is_digit(#[trigger] t[j]) by {
            assert(t[j] == s[j + 1]);
        }
        lemma_digit_run(t, i - 1);
    }
}

fn byte_is_digit(b: u8) -> (r: bool)
    ensures
        r == is_digit(b),
{
    48 <= b && b <= 57
}

/// The input from byte `k` on.
fn skip(data: &[u8], k: usize) -> (r: &[u8])
    requires
        k <= data@.len(),
    ensures
        r@ == data@.subrange(k as int, data@.len() as int),
{
    let (_, r) = data.split_at(k);
    r
}

fn primitive_exec(prefix: char, size: u64) -> (r: Option<PrimitiveType>)
    ensures
        r == primitive_of(prefix, size),
{
    if prefix == 'u' && size == 8 {
        Some(PrimitiveType::U8)
    } else if prefix == 'u' && size == 16 {
        Some(PrimitiveType::U16)
    } else if prefix == 'u' && size == 32 {
        Some(PrimitiveType::U32)
    } else if prefix == 'u' && size == 64 {
        Some(PrimitiveType::U64)
    } else if prefix == 'i' && size == 8 {
        Some(PrimitiveType::I8)
    } else if prefix == 'i' && size == 16 {
        Some(PrimitiveType::I16)
    } else if prefix == 'i' && size == 32 {
        Some(PrimitiveType::I32)
    } else if prefix == 'i' && size == 64 {
        Some(PrimitiveType::I64)
    } else if prefix == 'f' && size == 32 {
        Some(PrimitiveType::F32)
    } else if prefix == 'f' && size == 64 {
        Some(PrimitiveType::F64)
    } else {
        None
    }
}

impl PrimitiveType {
    /// Reads a scalar type at the start of `data`; see [`primitive_spec`].
    pub fn parse(data: &[u8]) -> (r: (Option<PrimitiveType>, &[u8]))
        ensures
            parsed_as(r.0, r.1@, data@, primitive_spec(data@)),
            within(primitive_spec(data@), data@.len() as int),
    {
        proof {
            lemma_digit_run_len(data@.drop_first());
        }
        let (prefix, head) = Self::parse_prefix(data);
        let prefix = match prefix {
            None => return (None, data),
            Some(c) => c,
        };
        let (size, head) = Self::parse_size(head);
        let size = match size {
            None => return (None, data),
            Some(n) => n,
        };
        match primitive_exec(prefix, size) {
            Some(p) => {
                proof {
                    let d1 = data@.subrange(1, data@.len() as int);
                    assert(d1 =~= data@.drop_first());
                    let k = match size_spec(d1) {
                        Some((_, k)) => k,
                        None => 0,
                    };
                    assert(head@ =~= data@.subrange(1 + k, data@.len() as int));
                }
                (Some(p), head)
            },
            None => (None, data),
        }
    }

    /// Reads the letter that starts a scalar type; see [`prefix_spec`].
    pub fn parse_prefix(data: &[u8]) -> (r: (Option<char>, &[u8]))
        ensures
            match prefix_spec(data@) {
                Some((c, n)) => r.0 == Some(c) && r.1@ == data@.subrange(n, data@.len() as int),
                None => r.0 is None && r.1@ == data@,
            },
    {
        if data.len() == 0 {
            return (None, data);
        }
        let b = data[0];
        if b == 117 {
            (Some('u'), skip(data, 1))
        } else if b == 105 {
            (Some('i'), skip(data, 1))
        } else if b == 102 {
            (Some('f'), skip(data, 1))
        } else {
            (None, data)
        }
    }

    /// Reads a number at the start of `data`; see [`size_spec`]. A number too
    /// large for a `u64` wraps.
    pub fn parse_size(data: &[u8]) -> (r: (Option<u64>, &[u8]))
        ensures
            parsed_as(r.0, r.1@, data@, size_spec(data@)),
            digit_run(data@) <= data@.len(),
    {
        proof {
            lemma_digit_run_len(data@);
        }
        let mut i: usize = 0;
        let mut size: u64 = 0;
        while i < data.len() && byte_is_digit(data[i])
            invariant
                i <= data@.len(),
                size == digits_value(data@.subrange(0, i as int)),
                forall|j: int| 0 <= j < i ==> is_digit(#[trigger] data@[j]),
            decreases data@.len() - i,
        {
            let b = data[i];
            assert(data@.subrange(0, i + 1).drop_last() =~= data@.subrange(0, i as int));
            size = (((size as u128) * 10 + ((b - 48) as u128)) % 0x1_0000_0000_0000_0000u128) as u64;
            i = i + 1;
        }
        proof {
            lemma_digit_run(data@, i as int);
        }
        if i == 0 {
            (None, data)
        } else {
            (Some(size), skip(data, i))
        }
    }
}

impl Type {
    /// Reads a field type at the start of `data`; see [`type_spec`].
    pub fn parse(data: &[u8]) -> (r: (Option<Type>, &[u8]))
        ensures
            parsed_as(r.0, r.1@, data@, type_spec(data@)),
            within(type_spec(data@), data@.len() as int),
    {
        reveal(type_spec);
        let (result, head) = PrimitiveType::parse(data);
        if let Some(pt) = result {
            return (Some(Type::Primitive(pt)), head);
        }
        let (result, head) = Type::parse_array(data);
        if result.is_some() {
            return (result, head);
        }
        let (result, head) = Type::parse_vector(data);
        if result.is_some() {
            return (result, head);
        }
        (None, data)
    }

    /// Reads a field type that makes up the whole of `data`: `u8xxx` is
    /// refused here, where [`Type::parse`] reads `u8` and leaves `xxx`.
    pub fn parse_exact(data: &[u8]) -> (r: Option<Type>)
        ensures
            r == exact_type_spec(data@),
    {
        let (result, head) = Type::parse(data);
        if head.len() == 0 {
            result
        } else {
            None
        }
    }

    /// Reads `[` scalar `;` number `]` at the start of `data`; see
    /// [`array_spec`].
    pub fn parse_array(data: &[u8]) -> (r: (Option<Type>, &[u8]))
        ensures
            parsed_as(r.0, r.1@, data@, array_spec(data@)),
            within(array_spec(data@), data@.len() as int),
    {
        if data.len() == 0 || data[0] != 91 {
            return (None, data);
        }
        let h1 = skip(data, 1);
        assert(h1@ =~= data@.drop_first());
        let (pt, h2) = PrimitiveType::parse(h1);
        let pt = match pt {
            None => return (None, data),
            Some(p) => p,
        };
        let ghost i = data@.len() - h2@.len();
        assert(h2@ =~= data@.subrange(i, data@.len() as int));
        if h2.len() == 0 || h2[0] != 59 {
            return (None, data);
        }
        let h3 = skip(h2, 1);
        assert(h3@ =~= data@.subrange(i + 1, data@.len() as int));
        let (size, h4) = PrimitiveType::parse_size(h3);
        let size = match size {
            None => return (None, data),
            Some(n) => n,
        };
        let ghost j = data@.len() - h4@.len();
        assert(h4@ =~= data@.subrange(j, data@.len() as int));
        if h4.len() == 0 || h4[0] != 93 {
            return (None, data);
        }
        let rest = skip(h4, 1);
        assert(rest@ =~= data@.subrange(j + 1, data@.len() as int));
        (Some(Type::Array(pt, size)), rest)
    }

    /// Reads `Vec<` scalar `>` at the start of `data`; see [`vector_spec`].
    pub fn parse_vector(data: &[u8]) -> (r: (Option<Type>, &[u8]))
        ensures
            parsed_as(r.0, r.1@, data@, vector_spec(data@)),
            within(vector_spec(data@), data@.len() as int),
    {
        if data.len() < 4 || data[0] != 86 || data[1] != 101 || data[2] != 99 || data[3] != 60 {
            proof {
                if data@.len() >= 4 {
                    if data@.subrange(0, 4) == vec_open() {
                        assert(data@[0] == data@.subrange(0, 4)[0]);
                        assert(data@[1] == data@.subrange(0, 4)[1]);
                        assert(data@[2] == data@.subrange(0, 4)[2]);
                        assert(data@[3] == data@.subrange(0, 4)[3]);
                    }
                }
            }
            return (None, data);
        }
        assert(data@.subrange(0, 4) =~= vec_open());
        let h1 = skip(data, 4);
        let (pt, h2) = PrimitiveType::parse(h1);
        let pt = match pt {
            None => return (None, data),
            Some(p) => p,
        };
        let ghost i = data@.len() - h2@.len();
        assert(h2@ =~= data@.subrange(i, data@.len() as int));
        if h2.len() == 0 || h2[0] != 62 {
            return (None, data);
        }
        let rest = skip(h2, 1);
        assert(rest@ =~= data@.subrange(i + 1, data@.len() as int));
        (Some(Type::Vector(pt)), rest)
    }
}

/// A record layout: a non-empty sequence of field types.
#[derive(Debug, PartialEq)]
pub struct TupleType {
    types: Vec<Type>,
}

impl TupleType {
    #[verifier::type_invariant]
    spec fn inv(&self) -> bool {
        self.types@.len() > 0
    }
}

impl View for TupleType {
    type V = Seq<Type>;

    closed spec fn view(&self) -> Seq<Type> {
        self.types@
    }
}

impl TupleType {
    /// Reads a tuple at the start of `data`; see [`tuple_spec`].
    pub fn parse(data: &[u8]) -> (r: (Option<TupleType>, &[u8]))
        ensures
            match tuple_spec(data@) {
                Some((ts, n)) => r.0 matches Some(t) && t@ == ts && r.1@ == data@.subrange(
                    n,
                    data@.len() as int,
                ),
                None => r.0 is None && r.1@ == data@,
            },
    {
        if data.len() == 0 || data[0] != 40 {
            return (None, data);
        }
        let mut head = skip(data, 1);
        let ghost fields = data@.drop_first();
        assert(head@ =~= fields);
        let ghost mut c: int = 1;
        let mut types: Vec<Type> = Vec::new();
        loop
            invariant
                1 <= c <= data@.len(),
                data@[0] == 40,
                head@ == data@.subrange(c, data@.len() as int),
                fields == data@.drop_first(),
                fields_spec(fields) == match fields_spec(head@) {
                    Some((ts, m)) => Some((types@ + ts, c - 1 + m)),
                    None => None::<(Seq<Type>, int)>,
                },
            decreases head@.len(),
        {
            let ghost h = head@;
            let (t, h2) = Type::parse(head);
            let t = match t {
                None => return (None, data),
                Some(t) => t,
            };
            let ghost n = h.len() - h2@.len();
            if h2.len() == 0 {
                return (None, data);
            }
            let b = h2[0];
            assert(h2@ =~= h.subrange(n, h.len() as int));
            assert(b == h[n]);
            if b == 41 {
                let ghost before = types@;
                types.push(t);
                let rest = skip(h2, 1);
                assert(fields_spec(h) == Some((seq![t], n + 1)));
                assert(before + seq![t] =~= types@);
                assert(fields_spec(fields) == Some((types@, c + n)));
                assert(tuple_spec(data@) == Some((types@, c + n + 1)));
                assert(rest@ =~= data@.subrange(c + n + 1, data@.len() as int));
                return (Some(TupleType { types }), rest);
            } else if b == 44 {
                let ghost before = types@;
                types.push(t);
                head = skip(h2, 1);
                proof {
                    assert(head@ =~= h.subrange(n + 1, h.len() as int));
                    assert(head@ =~= data@.subrange(c + n + 1, data@.len() as int));
                    match fields_spec(head@) {
                        Some((ts, m)) => {
                            assert(before + (seq![t] + ts) =~= types@ + ts);
                        },
                        None => {},
                    }
                    c = c + n + 1;
                }
            } else {
                return (None, data);
            }
        }
    }
}

/// A string made of ASCII bytes.
fn ascii_string(bytes: Vec<u8>) -> (r: String)
    requires
        all_ascii(bytes@),
    ensures
        encode_utf8(r@) == bytes@,
{
    proof {
        let chars = Seq::new(bytes@.len(), |i: int| bytes@[i] as char);
        assert(is_ascii_chars(chars));
        is_ascii_chars_encode_utf8(chars);
        assert(encode_utf8(chars) =~= bytes@);
        encode_utf8_valid_utf8(chars);
    }
    match utf8_to_string(bytes) {
        Some(s) => s,
        None => {
            proof {
                assert(false);
            }
            String::new()
        },
    }
}

/// The decimal digits are ASCII digits.
proof fn lemma_decimal_ascii(n: nat)
    ensures
        all_ascii(decimal(n)),
        decimal(n).len() > 0,
        forall|i: int| 0 <= i < decimal(n).len() ==> is_digit(#[trigger] decimal(n)[i]),
    decreases n,
{
    if n >= 10 {
        lemma_decimal_ascii(n / 10);
    }
}

/// Appends the decimal digits of `n`.
fn push_decimal(out: &mut Vec<u8>, n: u64)
    ensures
        final(out)@ == old(out)@ + decimal(n as nat),
    decreases n,
{
    if n >= 10 {
        push_decimal(out, n / 10);
    }
    out.push((48 + n % 10) as u8);
    assert(out@ =~= old(out)@ + decimal(n as nat));
}

impl PrimitiveType {
    /// Appends the text of the scalar type.
    pub fn render_into(&self, out: &mut Vec<u8>)
        ensures
            final(out)@ == old(out)@ + render_primitive(*self),
    {
        let b: [u8; 3] = match self {
            PrimitiveType::U8 => [117u8, 56u8, 0u8],
            PrimitiveType::U16 => [117u8, 49u8, 54u8],
            PrimitiveType::U32 => [117u8, 51u8, 50u8],
            PrimitiveType::U64 => [117u8, 54u8, 52u8],
            PrimitiveType::I8 => [105u8, 56u8, 0u8],
            PrimitiveType::I16 => [105u8, 49u8, 54u8],
            PrimitiveType::I32 => [105u8, 51u8, 50u8],
            PrimitiveType::I64 => [105u8, 54u8, 52u8],
            PrimitiveType::F32 => [102u8, 51u8, 50u8],
            PrimitiveType::F64 => [102u8, 54u8, 52u8],
        };
        let n: usize = match self {
            PrimitiveType::U8 | PrimitiveType::I8 => 2,
            _ => 3,
        };
        let mut i: usize = 0;
        while i < n
            invariant
                n <= 3,
                n == render_primitive(*self).len(),
                forall|j: int| 0 <= j < n ==> #[trigger] b@[j] == render_primitive(*self)[j],
                i <= n,
                out@ == old(out)@ + render_primitive(*self).subrange(0, i as int),
            decreases n - i,
        {
            out.push(b[i]);
            i = i + 1;
            assert(out@ =~= old(out)@ + render_primitive(*self).subrange(0, i as int));
        }
        assert(render_primitive(*self).subrange(0, n as int) =~= render_primitive(*self));
    }

    /// The text of the scalar type, such as `u16`.
    pub fn to_string(&self) -> (r: String)
        ensures
            encode_utf8(r@) == render_primitive(*self),
    {
        let mut out: Vec<u8> = Vec::new();
        self.render_into(&mut out);
        assert(out@ =~= render_primitive(*self));
        ascii_string(out)
    }
}

impl Type {
    /// Appends the text of the field type.
    pub fn render_into(&self, out: &mut Vec<u8>)
        ensures
            final(out)@ == old(out)@ + render_type(*self),
    {
        match self {
            Type::Primitive(p) => p.render_into(out),
            Type::Array(p, n) => {
                out.push(91u8);
                p.render_into(out);
                out.push(59u8);
                push_decimal(out, *n);
                out.push(93u8);
            },
            Type::Vector(p) => {
                out.push(86u8);
                out.push(101u8);
                out.push(99u8);
                out.push(60u8);
                p.render_into(out);
                out.push(62u8);
            },
        }
        assert(out@ =~= old(out)@ + render_type(*self));
    }

    /// The text of the field type, such as `[u32;16]`.
    pub fn to_string(&self) -> (r: String)
        ensures
            encode_utf8(r@) == render_type(*self),
    {
        let mut out: Vec<u8> = Vec::new();
        self.render_into(&mut out);
        assert(out@ =~= render_type(*self));
        proof {
            lemma_render_type_ascii(*self);
        }
        ascii_string(out)
    }
}

/// The text of a field type is ASCII.
proof fn lemma_render_type_ascii(t: Type)
    ensures
        all_ascii(render_type(t)),
{
    match t {
        Type::Array(_, n) => lemma_decimal_ascii(n as nat),
        _ => {},
    }
}

/// The text of field types is ASCII.
proof fn lemma_render_fields_ascii(ts: Seq<Type>)
    ensures
        all_ascii(render_fields(ts)),
    decreases ts.len(),
{
    if ts.len() > 0 {
        lemma_render_type_ascii(ts[0]);
    }
    if ts.len() > 1 {
        lemma_render_fields_ascii(ts.drop_first());
    }
}

/// Rendering one more field type appends a `,` and its text.
proof fn lemma_render_fields_snoc(ts: Seq<Type>, i: int)
    requires
        1 <= i < ts.len(),
    ensures
        render_fields(ts.subrange(0, i + 1)) == render_fields(ts.subrange(0, i)) + seq![44u8]
            + render_type(ts[i]),
    decreases i,
{
    let a = ts.subrange(0, i + 1);
    let b = ts.subrange(0, i);
    if i == 1 {
        assert(a.drop_first() =~= seq![ts[1]]);
        assert(b =~= seq![ts[0]]);
        assert(render_fields(seq![ts[1]]) == render_type(ts[1]));
        assert(render_fields(b) == render_type(ts[0]));
    } else {
        let d = ts.drop_first();
        lemma_render_fields_snoc(d, i - 1);
        assert(a.drop_first() =~= d.subrange(0, i));
        assert(b.drop_first() =~= d.subrange(0, i - 1));
        assert(a[0] == ts[0] && b[0] == ts[0] && d[i - 1] == ts[i]);
        assert(render_fields(a) =~= render_fields(b) + seq![44u8] + render_type(ts[i]));
    }
}

impl TupleType {
    /// Appends the text of the tuple.
    pub fn render_into(&self, out: &mut Vec<u8>)
        ensures
            final(out)@ == old(out)@ + render_tuple(self@),
    {
        proof {
            use_type_invariant(self);
        }
        let ghost ts = self.types@;
        out.push(40u8);
        self.types[0].render_into(out);
        assert(ts.subrange(0, 1) =~= seq![ts[0]]);
        let mut i: usize = 1;
        while i < self.types.len()
            invariant
                ts == self.types@,
                1 <= i <= ts.len(),
                out@ == old(out)@ + seq![40u8] + render_fields(ts.subrange(0, i as int)),
            decreases ts.len() - i,
        {
            proof {
                lemma_render_fields_snoc(ts, i as int);
            }
            out.push(44u8);
            self.types[i].render_into(out);
            i = i + 1;
            assert(out@ =~= old(out)@ + seq![40u8] + render_fields(ts.subrange(0, i as int)));
        }
        out.push(41u8);
        assert(ts.subrange(0, ts.len() as int) =~= ts);
        assert(out@ =~= old(out)@ + render_tuple(self@));
    }

    /// The text of the tuple, such as `(f32,[u32;16])`.
    pub fn to_string(&self) -> (r: String)
        ensures
            encode_utf8(r@) == render_tuple(self@),
    {
        let mut out: Vec<u8> = Vec::new();
        self.render_into(&mut out);
        assert(out@ =~= render_tuple(self@));
        proof {
            lemma_render_fields_ascii(self@);
        }
        ascii_string(out)
    }
}

/// Builds a [`TupleType`] one field type at a time.
pub struct TupleTypeBuilder {
    types: Vec<Type>,
}

impl View for TupleTypeBuilder {
    type V = Seq<Type>;

    closed spec fn view(&self) -> Seq<Type> {
        self.types@
    }
}

impl TupleTypeBuilder {
    /// A builder with no field type yet.
    pub fn new() -> (r: Self)
        ensures
            r@ == Seq::<Type>::empty(),
    {
        TupleTypeBuilder { types: Vec::new() }
    }

    /// Adds a field type.
    pub fn push(self, t: Type) -> (r: Self)
        ensures
            r@ == self@.push(t),
    {
        let mut types = self.types;
        types.push(t);
        TupleTypeBuilder { types }
    }

    /// Adds the field type that the whole of `t` names (see
    /// [`Type::parse_exact`]); `t` must name one.
    pub fn push_str(self, t: &str) -> (r: Self)
        requires
            exact_type_spec(encode_utf8(t@)) is Some,
        ensures
            r@ == self@.push(exact_type_spec(encode_utf8(t@))->0),
    {
        let parsed = Type::parse_exact(t.as_bytes());
        let mut types = self.types;
        match parsed {
            Some(ty) => types.push(ty),
            None => {},
        }
        TupleTypeBuilder { types }
    }

    /// The tuple; at least one field type must have been added.
    pub fn build(self) -> (r: TupleType)
        requires
            self@.len() > 0,
        ensures
            r@ == self@,
    {
        TupleType { types: self.types }
    }
}

// ---------------------------------------------------------------------------
// Rendering and parsing are inverse

/// Input that does not go on with a digit.
pub open spec fn no_digit_first(t: Seq<u8>) -> bool {
    t.len() == 0 || !is_digit(t[0])
}

/// The letter of a scalar type.
pub open spec fn letter_of(p: PrimitiveType) -> u8 {
    match p {
        PrimitiveType::U8 | PrimitiveType::U16 | PrimitiveType::U32 | PrimitiveType::U64 => 117,
        PrimitiveType::I8 | PrimitiveType::I16 | PrimitiveType::I32 | PrimitiveType::I64 => 105,
        PrimitiveType::F32 | PrimitiveType::F64 => 102,
    }
}

/// The bit width of a scalar type.
pub open spec fn width_of(p: PrimitiveType) -> nat {
    match p {
        PrimitiveType::U8 | PrimitiveType::I8 => 8,
        PrimitiveType::U16 | PrimitiveType::I16 => 16,
        PrimitiveType::U32 | PrimitiveType::I32 | PrimitiveType::F32 => 32,
        PrimitiveType::U64 | PrimitiveType::I64 | PrimitiveType::F64 => 64,
    }
}

/// The decimal digits of `n` read back as `n`.
proof fn lemma_decimal_value(n: nat)
    requires
        n <= u64::MAX,
    ensures
        digits_value(decimal(n)) == n,
    decreases n,
{
    let d = decimal(n);
    if n >= 10 {
        lemma_decimal_value(n / 10);
        assert(d.drop_last() =~= decimal(n / 10));
        assert(d.last() == (48 + n % 10) as u8);
        assert((n / 10) * 10 + n % 10 == n) by (nonlinear_arith);
        assert(digits_value(d) == (((n / 10) * 10 + n % 10) % 0x1_0000_0000_0000_0000) as u64);
    } else {
        assert(d.drop_last() =~= Seq::<u8>::empty());
        assert(digits_value(d.drop_last()) == 0);
        assert(d.last() == (48 + n) as u8);
        assert(digits_value(d) == ((0 * 10 + n) % 0x1_0000_0000_0000_0000) as u64);
    }
}

/// Reading a number from its decimal digits.
proof fn lemma_size_of_decimal(n: nat, tail: Seq<u8>)
    requires
        n <= u64::MAX,
        no_digit_first(tail),
    ensures
        size_spec(decimal(n) + tail) == Some((n as u64, decimal(n).len() as int)),
{
    lemma_decimal_ascii(n);
    lemma_decimal_value(n);
    let s = decimal(n) + tail;
    let k = decimal(n).len() as int;
    assert forall|j: int| 0 <= j < k implies is_digit(#[trigger] s[j]) by {
        assert(s[j] == decimal(n)[j]);
    }
    lemma_digit_run(s, k);
    assert(s.subrange(0, k) =~= decimal(n));
}

/// A scalar type is written as its letter and then its width.
proof fn lemma_render_primitive_parts(p: PrimitiveType)
    ensures
        render_primitive(p) == seq![letter_of(p)] + decimal(width_of(p)),
        width_of(p) <= u64::MAX,
        primitive_of(
            if letter_of(p) == 117 {
                'u'
            } else if letter_of(p) == 105 {
                'i'
            } else {
                'f'
            },
            width_of(p) as u64,
        ) == Some(p),
{
    assert(decimal(1) =~= seq![49u8]);
    assert(decimal(3) =~= seq![51u8]);
    assert(decimal(6) =~= seq![54u8]);
    assert(decimal(8) =~= seq![56u8]);
    assert(decimal(16) =~= seq![49u8, 54u8]);
    assert(decimal(32) =~= seq![51u8, 50u8]);
    assert(decimal(64) =~= seq![54u8, 52u8]);
    assert(render_primitive(p) =~= seq![letter_of(p)] + decimal(width_of(p)));
}

/// A written scalar type reads back as itself.
proof fn lemma_primitive_of_render(p: PrimitiveType, tail: Seq<u8>)
    requires
        no_digit_first(tail),
    ensures
        primitive_spec(render_primitive(p) + tail) == Some((p, render_primitive(p).len() as int)),
{
    lemma_render_primitive_parts(p);
    let s = render_primitive(p) + tail;
    assert(s.drop_first() =~= decimal(width_of(p)) + tail);
    lemma_size_of_decimal(width_of(p), tail);
}

/// No scalar type starts with `[` or `V`.
proof fn lemma_no_primitive_at(s: Seq<u8>)
    requires
        s.len() > 0,
        s[0] == 91 || s[0] == 86,
    ensures
        primitive_spec(s) is None,
{
}

/// A written array type reads back as itself.
proof fn lemma_array_of_render(p: PrimitiveType, n: u64, tail: Seq<u8>)
    ensures
        array_spec(render_type(Type::Array(p, n)) + tail) == Some(
            (Type::Array(p, n), render_type(Type::Array(p, n)).len() as int),
        ),
{
    let s = render_type(Type::Array(p, n)) + tail;
    let rp = render_primitive(p);
    let dn = decimal(n as nat);
    assert(s =~= seq![91u8] + rp + seq![59u8] + dn + seq![93u8] + tail);
    assert(s.drop_first() =~= rp + (seq![59u8] + dn + seq![93u8] + tail));
    lemma_primitive_of_render(p, seq![59u8] + dn + seq![93u8] + tail);
    let i = 1 + rp.len() as int;
    assert(s[i] == 59);
    assert(s.subrange(i + 1, s.len() as int) =~= dn + (seq![93u8] + tail));
    lemma_size_of_decimal(n as nat, seq![93u8] + tail);
    let j = i + 1 + dn.len() as int;
    assert(s[j] == 93);
}

/// A written vector type reads back as itself.
proof fn lemma_vector_of_render(p: PrimitiveType, tail: Seq<u8>)
    ensures
        vector_spec(render_type(Type::Vector(p)) + tail) == Some(
            (Type::Vector(p), render_type(Type::Vector(p)).len() as int),
        ),
{
    let s = render_type(Type::Vector(p)) + tail;
    let rp = render_primitive(p);
    assert(s =~= vec_open() + rp + seq![62u8] + tail);
    assert(s.subrange(0, 4) =~= vec_open());
    assert(s.subrange(4, s.len() as int) =~= rp + (seq![62u8] + tail));
    lemma_primitive_of_render(p, seq![62u8] + tail);
    let i = 4 + rp.len() as int;
    assert(s[i] == 62);
}

/// A written field type reads back as itself.
proof fn lemma_type_of_render(t: Type, tail: Seq<u8>)
    requires
        no_digit_first(tail),
    ensures
        type_spec(render_type(t) + tail) == Some((t, render_type(t).len() as int)),
{
    reveal(type_spec);
    let s = render_type(t) + tail;
    match t {
        Type::Primitive(p) => {
            lemma_primitive_of_render(p, tail);
        },
        Type::Array(p, n) => {
            assert(s[0] == 91);
            lemma_no_primitive_at(s);
            lemma_array_of_render(p, n, tail);
        },
        Type::Vector(p) => {
            assert(s[0] == 86);
            lemma_no_primitive_at(s);
            assert(array_spec(s) is None);
            lemma_vector_of_render(p, tail);
        },
    }
}

/// Written field types, closed by `)`, read back as themselves.
proof fn lemma_fields_of_render(ts: Seq<Type>, tail: Seq<u8>)
    requires
        ts.len() > 0,
    ensures
        fields_spec(render_fields(ts) + seq![41u8] + tail) == Some(
            (ts, render_fields(ts).len() + 1int),
        ),
    decreases ts.len(),
{
    let rt = render_type(ts[0]);
    if ts.len() == 1 {
        let s = render_fields(ts) + seq![41u8] + tail;
        assert(s =~= rt + (seq![41u8] + tail));
        lemma_type_of_render(ts[0], seq![41u8] + tail);
        assert(ts =~= seq![ts[0]]);
    } else {
        let rest = ts.drop_first();
        let s = render_fields(ts) + seq![41u8] + tail;
        assert(s =~= rt + (seq![44u8] + render_fields(rest) + seq![41u8] + tail));
        lemma_type_of_render(ts[0], seq![44u8] + render_fields(rest) + seq![41u8] + tail);
        let n = rt.len() as int;
        assert(s.subrange(n + 1, s.len() as int) =~= render_fields(rest) + seq![41u8] + tail);
        lemma_fields_of_render(rest, tail);
        assert(seq![ts[0]] + rest =~= ts);
    }
}

/// A written tuple reads back as itself, whatever follows it.
pub proof fn lemma_tuple_parse_render(ts: Seq<Type>, tail: Seq<u8>)
    requires
        ts.len() > 0,
    ensures
        tuple_spec(render_tuple(ts) + tail) == Some((ts, render_tuple(ts).len() as int)),
{
    let s = render_tuple(ts) + tail;
    assert(s.drop_first() =~= render_fields(ts) + seq![41u8] + tail);
    lemma_fields_of_render(ts, tail);
}

/// The number that starts at `i` is written as the decimal digits of its
/// value: no leading zero, and not past the largest `u64`.
pub open spec fn plain_number_at(s: Seq<u8>, i: int) -> bool {
    let t = s.subrange(i, s.len() as int);
    let k = digit_run(t) as int;
    decimal(digits_value(t.subrange(0, k)) as nat) == t.subrange(0, k)
}

/// Every number in `s` is written plainly.
pub open spec fn plain_numbers(s: Seq<u8>) -> bool {
    forall|i: int|
        0 <= i < s.len() && is_digit(s[i]) && (i == 0 || !is_digit(s[i - 1]))
            ==> #[trigger] plain_number_at(s, i)
}

/// The number read at `c`, just after a byte that is no digit, is written
/// as the decimal digits of its value.
proof fn lemma_size_back(s: Seq<u8>, c: int)
    requires
        1 <= c <= s.len(),
        !is_digit(s[c - 1]),
        plain_numbers(s),
        size_spec(s.subrange(c, s.len() as int)) is Some,
    ensures
        ({
            let t = s.subrange(c, s.len() as int);
            let k = digit_run(t) as int;
            &&& c + k <= s.len()
            &&& size_spec(t) == Some((digits_value(t.subrange(0, k)), k))
            &&& decimal(digits_value(t.subrange(0, k)) as nat) == s.subrange(c, c + k)
        }),
{
    let t = s.subrange(c, s.len() as int);
    lemma_digit_run_len(t);
    let k = digit_run(t) as int;
    assert(t[0] == s[c]);
    assert(plain_number_at(s, c));
    assert(t.subrange(0, k) =~= s.subrange(c, c + k));
}

/// A scalar type read at `c` is written as the bytes it was read from.
proof fn lemma_primitive_back(s: Seq<u8>, c: int)
    requires
        0 <= c <= s.len(),
        plain_numbers(s),
        primitive_spec(s.subrange(c, s.len() as int)) is Some,
    ensures
        ({
            let (p, n) = primitive_spec(s.subrange(c, s.len() as int))->Some_0;
            c + n <= s.len() && render_primitive(p) == s.subrange(c, c + n)
        }),
{
    let t = s.subrange(c, s.len() as int);
    assert(t[0] == s[c]);
    assert(t.drop_first() =~= s.subrange(c + 1, s.len() as int));
    lemma_size_back(s, c + 1);
    let (p, n) = primitive_spec(t)->Some_0;
    lemma_render_primitive_parts(p);
    let k = n - 1;
    assert(s.subrange(c, c + n) =~= seq![s[c]] + s.subrange(c + 1, c + 1 + k));
}

/// An array type read at `c` is written as the bytes it was read from.
proof fn lemma_array_back(s: Seq<u8>, c: int)
    requires
        0 <= c <= s.len(),
        plain_numbers(s),
        array_spec(s.subrange(c, s.len() as int)) is Some,
    ensures
        ({
            let (t, n) = array_spec(s.subrange(c, s.len() as int))->Some_0;
            c + n <= s.len() && render_type(t) == s.subrange(c, c + n)
        }),
{
    let u = s.subrange(c, s.len() as int);
    assert(u.drop_first() =~= s.subrange(c + 1, s.len() as int));
    lemma_primitive_back(s, c + 1);
    let (p, n1) = primitive_spec(u.drop_first())->Some_0;
    let i = 1 + n1;
    assert(u[i] == s[c + i]);
    assert(u.subrange(i + 1, u.len() as int) =~= s.subrange(c + i + 1, s.len() as int));
    lemma_size_back(s, c + i + 1);
    let (len, n2) = size_spec(u.subrange(i + 1, u.len() as int))->Some_0;
    let j = i + 1 + n2;
    assert(u[j] == s[c + j]);
    assert(s.subrange(c, c + j + 1) =~= seq![91u8] + s.subrange(c + 1, c + i) + seq![59u8]
        + s.subrange(c + i + 1, c + j) + seq![93u8]);
}

/// A vector type read at `c` is written as the bytes it was read from.
proof fn lemma_vector_back(s: Seq<u8>, c: int)
    requires
        0 <= c <= s.len(),
        plain_numbers(s),
        vector_spec(s.subrange(c, s.len() as int)) is Some,
    ensures
        ({
            let (t, n) = vector_spec(s.subrange(c, s.len() as int))->Some_0;
            c + n <= s.len() && render_type(t) == s.subrange(c, c + n)
        }),
{
    let u = s.subrange(c, s.len() as int);
    assert(u.subrange(4, u.len() as int) =~= s.subrange(c + 4, s.len() as int));
    lemma_primitive_back(s, c + 4);
    let (p, n1) = primitive_spec(u.subrange(4, u.len() as int))->Some_0;
    let i = 4 + n1;
    assert(u[i] == s[c + i]);
    assert(u.subrange(0, 4) =~= s.subrange(c, c + 4));
    assert(s.subrange(c, c + i + 1) =~= s.subrange(c, c + 4) + s.subrange(c + 4, c + i) + seq![
        62u8,
    ]);
}

/// A field type read at `c` is written as the bytes it was read from.
proof fn lemma_type_back(s: Seq<u8>, c: int)
    requires
        0 <= c <= s.len(),
        plain_numbers(s),
        type_spec(s.subrange(c, s.len() as int)) is Some,
    ensures
        ({
            let (t, n) = type_spec(s.subrange(c, s.len() as int))->Some_0;
            c + n <= s.len() && render_type(t) == s.subrange(c, c + n)
        }),
{
    reveal(type_spec);
    let u = s.subrange(c, s.len() as int);
    if primitive_spec(u) is Some {
        lemma_primitive_back(s, c);
    } else if array_spec(u) is Some {
        lemma_array_back(s, c);
    } else {
        lemma_vector_back(s, c);
    }
}

/// Field types read at `c`, up to and with the closing `)`, are written as
/// the bytes they were read from.
proof fn lemma_fields_back(s: Seq<u8>, c: int)
    requires
        0 <= c <= s.len(),
        plain_numbers(s),
        fields_spec(s.subrange(c, s.len() as int)) is Some,
    ensures
        ({
            let (ts, m) = fields_spec(s.subrange(c, s.len() as int))->Some_0;
            0 < m && c + m <= s.len() && render_fields(ts) + seq![41u8] == s.subrange(c, c + m)
        }),
    decreases s.len() - c,
{
    let u = s.subrange(c, s.len() as int);
    lemma_type_back(s, c);
    let (t0, n) = type_spec(u)->Some_0;
    assert(u[n] == s[c + n]);
    if u[n] == 41 {
        assert(render_fields(seq![t0]) == render_type(t0));
        assert(s.subrange(c, c + n + 1) =~= s.subrange(c, c + n) + seq![41u8]);
    } else {
        assert(u.subrange(n + 1, u.len() as int) =~= s.subrange(c + n + 1, s.len() as int));
        lemma_fields_back(s, c + n + 1);
        let (rest, m) = fields_spec(s.subrange(c + n + 1, s.len() as int))->Some_0;
        assert(u[n] == 44);
        assert(s[c + n] == 44);
        assert(c + n + 1 + m <= s.len());
        let ts = seq![t0] + rest;
        assert(ts.drop_first() =~= rest);
        assert(rest.len() > 0);
        assert(s.subrange(c, c + n + 1 + m) =~= s.subrange(c, c + n) + seq![44u8] + s.subrange(
            c + n + 1,
            c + n + 1 + m,
        ));
        assert(render_fields(ts) + seq![41u8] =~= render_type(t0) + seq![44u8] + (render_fields(
            rest,
        ) + seq![41u8]));
    }
}

/// A tuple that makes up the whole of `s`, with its numbers written
/// plainly, is written back as `s` itself.
pub proof fn lemma_tuple_render_parse(s: Seq<u8>, ts: Seq<Type>)
    requires
        tuple_spec(s) == Some((ts, s.len() as int)),
        plain_numbers(s),
    ensures
        render_tuple(ts) == s,
{
    assert(s.drop_first() =~= s.subrange(1, s.len() as int));
    lemma_fields_back(s, 1);
    assert(s =~= seq![40u8] + s.subrange(1, s.len() as int));
}

} // verus!
