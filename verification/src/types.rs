//! The types of the contract language and their spelling.
use crate::decimal::{
    all_hex, all_hex_chars, decimal, parse_digits, parse_integer, parse_signed, push_decimal,
    read_digits,
};
use crate::error::{ErrorKind, Failure, GeneratorError};
use crate::table::{upsert, NameTable};
use crate::text::{
    append_str, find, find_char, find_last, find_last_char, find_outside, find_text_outside,
    is_word, lemma_find, lemma_find_last, lemma_find_outside, lemma_trim, pieces, split_chars,
    split_on, split_words, starts_with, to_chars, to_text, tokens, trim, trim_chars,
};
use vstd::prelude::*;
use vstd::slice::{slice_subrange, slice_to_vec};

verus! {

/// A type of the contract language.
#[derive(Debug, PartialEq, Eq)]
pub enum PrimitiveSolidityType {
    Bool,
    String,
    /// Bytes of any number.
    Bytes,
    /// A fixed number of bytes, `bytes1` to `bytes32`.
    FixedBytes(u8),
    /// A signed integer of the given width in bits.
    Int(u16),
    /// An unsigned integer of the given width in bits.
    Uint(u16),
    Address,
    AddressPayable,
    /// An array of fixed length.
    Array(Box<PrimitiveSolidityType>, usize),
    /// An array of any length.
    DynamicArray(Box<PrimitiveSolidityType>),
    Mapping { key: Box<PrimitiveSolidityType>, value: Box<PrimitiveSolidityType> },
    /// A mapping with more than one key, whose key and value types are not
    /// kept.
    Nested,
}

impl Clone for PrimitiveSolidityType {
    fn clone(&self) -> (r: Self)
        ensures
            r == *self,
        decreases *self,
    {
        match self {
            PrimitiveSolidityType::Bool => PrimitiveSolidityType::Bool,
            PrimitiveSolidityType::String => PrimitiveSolidityType::String,
            PrimitiveSolidityType::Bytes => PrimitiveSolidityType::Bytes,
            PrimitiveSolidityType::FixedBytes(size) => PrimitiveSolidityType::FixedBytes(*size),
            PrimitiveSolidityType::Int(bits) => PrimitiveSolidityType::Int(*bits),
            PrimitiveSolidityType::Uint(bits) => PrimitiveSolidityType::Uint(*bits),
            PrimitiveSolidityType::Address => PrimitiveSolidityType::Address,
            PrimitiveSolidityType::AddressPayable => PrimitiveSolidityType::AddressPayable,
            PrimitiveSolidityType::Array(inner, size) => {
                let element = (**inner).clone();
                PrimitiveSolidityType::Array(Box::new(element), *size)
            },
            PrimitiveSolidityType::DynamicArray(inner) => {
                let element = (**inner).clone();
                PrimitiveSolidityType::DynamicArray(Box::new(element))
            },
            PrimitiveSolidityType::Mapping { key, value } => {
                let k = (**key).clone();
                let v = (**value).clone();
                PrimitiveSolidityType::Mapping { key: Box::new(k), value: Box::new(v) }
            },
            PrimitiveSolidityType::Nested => PrimitiveSolidityType::Nested,
        }
    }
}

/// The spelling of a type. `Nested` has none and is spelled as the empty
/// text.
pub open spec fn spelling(t: PrimitiveSolidityType) -> Seq<char>
    decreases t,
{
    match t {
        PrimitiveSolidityType::Bool => "bool"@,
        PrimitiveSolidityType::String => "string"@,
        PrimitiveSolidityType::Bytes => "bytes"@,
        PrimitiveSolidityType::FixedBytes(size) => "bytes"@ + decimal(size as nat),
        PrimitiveSolidityType::Int(bits) => "int"@ + decimal(bits as nat),
        PrimitiveSolidityType::Uint(bits) => "uint"@ + decimal(bits as nat),
        PrimitiveSolidityType::Address => "address"@,
        PrimitiveSolidityType::AddressPayable => "address payable"@,
        PrimitiveSolidityType::Array(inner, size) => spelling(*inner) + "["@ + decimal(
            size as nat,
        ) + "]"@,
        PrimitiveSolidityType::DynamicArray(inner) => spelling(*inner) + "[]"@,
        PrimitiveSolidityType::Mapping { key, value } => "mapping("@ + spelling(*key) + "=>"@
            + spelling(*value) + ")"@,
        PrimitiveSolidityType::Nested => Seq::empty(),
    }
}

/// The type that a text spells, if it spells one. White space around the
/// text does not count. The rules are tried in this order, and the first
/// that applies decides:
///
/// 1. one of the words `bool`, `string`, `bytes`, `address`,
///    `address payable`;
/// 2. `uint` and a width of at most 65535;
/// 3. `int` and a width of at most 65535;
/// 4. `bytes` and a number from 1 to 32;
/// 5. a text that ends with `]` is an array: what stands before its last
///    `[` spells the type of the elements, and what stands between that
///    `[` and the `]` is empty for an array of any length, or the length
///    of a fixed one;
/// 6. `mapping(`, a key type, `=>`, a value type and `)`, the key ending at
///    the first `=>` that stands outside every pair of `(` and `)`.
///
/// A width and a length are written in digits, without sign. Where a part
/// that must spell a type spells none, the text spells none.
#[verifier::opaque]
pub open spec fn parse_spelling(text: Seq<char>) -> Option<PrimitiveSolidityType>
    decreases text.len(),
{
    let s = trim(text);
    if s == "bool"@ {
        Some(PrimitiveSolidityType::Bool)
    } else if s == "string"@ {
        Some(PrimitiveSolidityType::String)
    } else if s == "bytes"@ {
        Some(PrimitiveSolidityType::Bytes)
    } else if s == "address"@ {
        Some(PrimitiveSolidityType::Address)
    } else if s == "address payable"@ {
        Some(PrimitiveSolidityType::AddressPayable)
    } else if s.len() >= 4 && "uint"@.is_prefix_of(s) && read_digits(s.skip(4), 0xffff) is Some {
        Some(PrimitiveSolidityType::Uint(read_digits(s.skip(4), 0xffff)->0 as u16))
    } else if s.len() >= 3 && "int"@.is_prefix_of(s) && read_digits(s.skip(3), 0xffff) is Some {
        Some(PrimitiveSolidityType::Int(read_digits(s.skip(3), 0xffff)->0 as u16))
    } else if s.len() > 5 && "bytes"@.is_prefix_of(s) && read_digits(s.skip(5), 0xff) is Some && 1
        <= read_digits(s.skip(5), 0xff)->0 <= 32 {
        Some(PrimitiveSolidityType::FixedBytes(read_digits(s.skip(5), 0xff)->0 as u8))
    } else if s.len() > 0 && s.last() == ']' {
        proof {
            lemma_trim(text);
            lemma_find_last(s, '[');
        }
        let i = find_last(s, '[');
        let length = s.subrange(i + 1, s.len() - 1);
        if i < 0 {
            None
        } else {
            match parse_spelling(s.take(i)) {
                None => None,
                Some(base) => if length.len() == 0 {
                    Some(PrimitiveSolidityType::DynamicArray(Box::new(base)))
                } else if read_digits(length, usize::MAX as nat) is Some {
                    Some(
                        PrimitiveSolidityType::Array(
                            Box::new(base),
                            read_digits(length, usize::MAX as nat)->0 as usize,
                        ),
                    )
                } else {
                    None
                },
            }
        }
    } else if s.len() >= 9 && "mapping("@.is_prefix_of(s) && s.last() == ')' {
        proof {
            lemma_trim(text);
        }
        let inner = s.subrange(8, s.len() - 1);
        let j = find_outside(inner, "=>"@);
        if 0 <= j && j + 2 <= inner.len() {
            match (parse_spelling(inner.take(j)), parse_spelling(inner.skip(j + 2))) {
                (Some(key), Some(value)) => Some(
                    PrimitiveSolidityType::Mapping { key: Box::new(key), value: Box::new(value) },
                ),
                _ => None,
            }
        } else {
            None
        }
    } else {
        None
    }
}

/// The parameters that the argument groups of a signature declare, or
/// `None` where a group is not exactly a type and a name. A name that is
/// declared again keeps its place and takes the later type.
pub open spec fn declared_inputs(groups: Seq<Seq<char>>) -> Option<
    Seq<(Seq<char>, PrimitiveSolidityType)>,
>
    decreases groups.len(),
{
    if groups.len() == 0 {
        Some(Seq::empty())
    } else {
        let words = tokens(groups.last());
        match declared_inputs(groups.drop_last()) {
            None => None,
            Some(before) => if words.len() == 2 && parse_spelling(words[0]) is Some {
                Some(upsert(before, words[1], parse_spelling(words[0])->0))
            } else {
                None
            },
        }
    }
}

/// The parameters that a signature line declares, or `None` where the
/// line is malformed: what stands between the first `(` and the first `)`
/// is split at the commas, and each group is a type and a name. The line
/// is malformed where it lacks `(` or `)`, where the first `)` stands
/// before the first `(`, or where a group is malformed; an empty argument
/// list holds one empty group, which is malformed.
pub open spec fn parse_signature(line: Seq<char>) -> Option<
    Seq<(Seq<char>, PrimitiveSolidityType)>,
> {
    let open = find(line, '(');
    let close = find(line, ')');
    if 0 <= open < close < line.len() {
        declared_inputs(split_on(line.subrange(open + 1, close), ','))
    } else {
        None
    }
}

/// Where the first groups are malformed, so are all of them together.
pub proof fn lemma_declared_inputs_prefix(groups: Seq<Seq<char>>, k: int)
    requires
        0 <= k <= groups.len(),
        declared_inputs(groups.take(k)) is None,
    ensures
        declared_inputs(groups) is None,
    decreases groups.len() - k,
{
    if k == groups.len() {
        assert(groups.take(k) =~= groups);
    } else {
        let rest = groups.drop_last();
        assert(rest.take(k) =~= groups.take(k));
        lemma_declared_inputs_prefix(rest, k);
    }
}

/// The type of the literal `value`, white space around it not counting.
/// The first rule that applies decides:
///
/// 1. `true` and `false` are `Bool`;
/// 2. `0x` and 40 hexadecimal digits are an `Address`;
/// 3. text that begins and ends with `"` is a `String`;
/// 4. any other text that begins with `0x` is `FixedBytes` of half the
///    number of characters after the `0x`, or `Bytes` where that is more
///    than 32;
/// 5. a signed number of 64 bits is `Int(256)` where it is negative, else
///    `Uint(256)`;
/// 6. anything else is a `String`.
pub open spec fn literal_type(value: Seq<char>) -> PrimitiveSolidityType {
    let v = trim(value);
    let n = v.len() as int;
    if v == "true"@ || v == "false"@ {
        PrimitiveSolidityType::Bool
    } else if n == 42 && "0x"@.is_prefix_of(v) && all_hex(v.skip(2)) {
        PrimitiveSolidityType::Address
    } else if n > 0 && v[0] == '"' && v.last() == '"' {
        PrimitiveSolidityType::String
    } else if n >= 2 && "0x"@.is_prefix_of(v) {
        if (n - 2) / 2 <= 32 {
            PrimitiveSolidityType::FixedBytes(((n - 2) / 2) as u8)
        } else {
            PrimitiveSolidityType::Bytes
        }
    } else if parse_signed(v, i64::MIN as int, i64::MAX as int) is Some {
        if parse_signed(v, i64::MIN as int, i64::MAX as int)->0 < 0 {
            PrimitiveSolidityType::Int(256)
        } else {
            PrimitiveSolidityType::Uint(256)
        }
    } else {
        PrimitiveSolidityType::String
    }
}

/// Whether `assignment` can be read as an assignment of a literal: it
/// holds exactly one `=`; a left side that holds both `[` and `]` has the
/// first `[` before the first `]`; one that does not hold both does not
/// end with `]`.
pub open spec fn is_literal_assignment(assignment: Seq<char>) -> bool {
    let parts = split_on(trim(assignment), '=');
    let left = trim(parts[0]);
    let open = find(left, '[');
    let close = find(left, ']');
    &&& parts.len() == 2
    &&& if open < left.len() && close < left.len() {
        open < close
    } else {
        !(left.len() > 0 && left.last() == ']')
    }
}

/// The type that an assignment of a literal gives its left side: with
/// both `[` and `]` on the left, a mapping from the type of what stands
/// between the first `[` and the first `]` to the type of the right side;
/// else the type of the right side.
pub open spec fn literal_assignment_type(assignment: Seq<char>) -> PrimitiveSolidityType {
    let parts = split_on(trim(assignment), '=');
    let left = trim(parts[0]);
    let open = find(left, '[');
    let close = find(left, ']');
    if open < left.len() && close < left.len() {
        PrimitiveSolidityType::Mapping {
            key: Box::new(literal_type(left.subrange(open + 1, close))),
            value: Box::new(literal_type(parts[1])),
        }
    } else {
        literal_type(parts[1])
    }
}

impl PrimitiveSolidityType {
    /// Appends the spelling of the type to `out`.
    pub fn write_spelling(&self, out: &mut Vec<char>)
        ensures
            final(out)@ == old(out)@ + spelling(*self),
        decreases *self,
    {
        match self {
            PrimitiveSolidityType::Bool => append_str(out, "bool"),
            PrimitiveSolidityType::String => append_str(out, "string"),
            PrimitiveSolidityType::Bytes => append_str(out, "bytes"),
            PrimitiveSolidityType::FixedBytes(size) => {
                append_str(out, "bytes");
                push_decimal(out, *size as u64);
                assert(out@ =~= old(out)@ + ("bytes"@ + decimal(*size as nat)));
            },
            PrimitiveSolidityType::Int(bits) => {
                append_str(out, "int");
                push_decimal(out, *bits as u64);
                assert(out@ =~= old(out)@ + ("int"@ + decimal(*bits as nat)));
            },
            PrimitiveSolidityType::Uint(bits) => {
                append_str(out, "uint");
                push_decimal(out, *bits as u64);
                assert(out@ =~= old(out)@ + ("uint"@ + decimal(*bits as nat)));
            },
            PrimitiveSolidityType::Address => append_str(out, "address"),
            PrimitiveSolidityType::AddressPayable => append_str(out, "address payable"),
            PrimitiveSolidityType::Array(inner, size) => {
                inner.write_spelling(out);
                append_str(out, "[");
                push_decimal(out, *size as u64);
                append_str(out, "]");
                assert(out@ =~= old(out)@ + (spelling(**inner) + "["@ + decimal(*size as nat)
                    + "]"@));
            },
            PrimitiveSolidityType::DynamicArray(inner) => {
                inner.write_spelling(out);
                append_str(out, "[]");
                assert(out@ =~= old(out)@ + (spelling(**inner) + "[]"@));
            },
            PrimitiveSolidityType::Mapping { key, value } => {
                append_str(out, "mapping(");
                key.write_spelling(out);
                append_str(out, "=>");
                value.write_spelling(out);
                append_str(out, ")");
                assert(out@ =~= old(out)@ + ("mapping("@ + spelling(**key) + "=>"@ + spelling(
                    **value,
                ) + ")"@));
            },
            PrimitiveSolidityType::Nested => {
                assert(out@ =~= old(out)@ + Seq::<char>::empty());
            },
        }
    }

    /// The spelling of the type.
    pub fn to_string(&self) -> (r: String)
        ensures
            r@ == spelling(*self),
    {
        let mut out: Vec<char> = Vec::new();
        self.write_spelling(&mut out);
        assert(out@ =~= spelling(*self));
        to_text(out.as_slice())
    }

    /// The type that `string` spells, or `None` where it spells none.
    pub fn from_string(string: &str) -> (r: Option<Self>)
        ensures
            r == parse_spelling(string@),
    {
        let chars = to_chars(string);
        Self::from_chars(chars.as_slice())
    }

    /// The type that the characters `text` spell, or `None` where they
    /// spell none.
    pub fn from_chars(text: &[char]) -> (r: Option<Self>)
        ensures
            r == parse_spelling(text@),
        decreases text@.len(),
    {
        let s = trim_chars(text);
        let n = s.len();
        proof {
            reveal(parse_spelling);
            lemma_trim(text@);
            reveal_strlit("uint");
            reveal_strlit("int");
            reveal_strlit("bytes");
            reveal_strlit("mapping(");
            reveal_strlit("=>");
        }
        if is_word(s, "bool") {
            return Some(PrimitiveSolidityType::Bool);
        }
        if is_word(s, "string") {
            return Some(PrimitiveSolidityType::String);
        }
        if is_word(s, "bytes") {
            return Some(PrimitiveSolidityType::Bytes);
        }
        if is_word(s, "address") {
            return Some(PrimitiveSolidityType::Address);
        }
        if is_word(s, "address payable") {
            return Some(PrimitiveSolidityType::AddressPayable);
        }
        if starts_with(s, "uint") {
            if let Some(bits) = parse_digits(slice_subrange(s, 4, n), 0xffff) {
                return Some(PrimitiveSolidityType::Uint(bits as u16));
            }
        }
        if starts_with(s, "int") {
            if let Some(bits) = parse_digits(slice_subrange(s, 3, n), 0xffff) {
                return Some(PrimitiveSolidityType::Int(bits as u16));
            }
        }
        if starts_with(s, "bytes") && n > 5 {
            if let Some(size) = parse_digits(slice_subrange(s, 5, n), 0xff) {
                if 1 <= size && size <= 32 {
                    return Some(PrimitiveSolidityType::FixedBytes(size as u8));
                }
            }
        }
        if n > 0 && s[n - 1] == ']' {
            proof {
                lemma_find_last(s@, '[');
            }
            let i = match find_last_char(s, '[') {
                Some(i) => i,
                None => {
                    return None;
                },
            };
            let base = match Self::from_chars(slice_subrange(s, 0, i)) {
                Some(ty) => ty,
                None => {
                    return None;
                },
            };
            let length = slice_subrange(s, i + 1, n - 1);
            if length.len() == 0 {
                return Some(PrimitiveSolidityType::DynamicArray(Box::new(base)));
            }
            return match parse_digits(length, usize::MAX as u64) {
                Some(size) => Some(PrimitiveSolidityType::Array(Box::new(base), size as usize)),
                None => None,
            };
        }
        if starts_with(s, "mapping(") && n >= 9 && s[n - 1] == ')' {
            let inner = slice_subrange(s, 8, n - 1);
            let arrow = to_chars("=>");
            let j = find_text_outside(inner, arrow.as_slice());
            proof {
                lemma_find_outside(inner@, "=>"@);
            }
            if j < inner.len() {
                let key = Self::from_chars(slice_subrange(inner, 0, j));
                let value = Self::from_chars(slice_subrange(inner, j + 2, inner.len()));
                return match (key, value) {
                    (Some(k), Some(v)) => Some(
                        PrimitiveSolidityType::Mapping { key: Box::new(k), value: Box::new(v) },
                    ),
                    _ => None,
                };
            }
        }
        None
    }

    /// The parameters that the signature `function_declaration` declares,
    /// or the failure `MalformedSignature` about the whole line.
    pub fn parse_function_declaration(function_declaration: &str) -> (r: Result<
        NameTable<Self>,
        GeneratorError,
    >)
        ensures
            match r {
                Ok(inputs) => parse_signature(function_declaration@) == Some(inputs@),
                Err(e) => parse_signature(function_declaration@) is None && e@ == (Failure {
                    kind: ErrorKind::MalformedSignature,
                    text: function_declaration@,
                }),
            },
    {
        let chars = to_chars(function_declaration);
        Self::signature_inputs(chars.as_slice())
    }

    /// The parameters that the signature `line` declares, or the failure
    /// `MalformedSignature` about the whole line.
    pub fn signature_inputs(line: &[char]) -> (r: Result<NameTable<Self>, GeneratorError>)
        ensures
            match r {
                Ok(inputs) => parse_signature(line@) == Some(inputs@),
                Err(e) => parse_signature(line@) is None && e@ == (Failure {
                    kind: ErrorKind::MalformedSignature,
                    text: line@,
                }),
            },
    {
        let open = find_char(line, '(');
        let close = find_char(line, ')');
        proof {
            lemma_find(line@, '(');
            lemma_find(line@, ')');
        }
        if !(open < close && close < line.len()) {
            return Err(GeneratorError::new(ErrorKind::MalformedSignature, line));
        }
        let groups = split_chars(slice_subrange(line, open + 1, close), ',');
        let ghost texts = pieces(groups@);
        let mut inputs: NameTable<Self> = NameTable::new();
        let mut i: usize = 0;
        assert(texts.take(0) =~= Seq::<Seq<char>>::empty());
        while i < groups.len()
            invariant
                i <= groups@.len(),
                texts == pieces(groups@),
                parse_signature(line@) == declared_inputs(texts),
                declared_inputs(texts.take(i as int)) == Some(inputs@),
            decreases groups@.len() - i,
        {
            let words = split_words(groups[i]);
            proof {
                assert(texts.take(i + 1).drop_last() =~= texts.take(i as int));
                assert(texts.take(i + 1).last() == groups@[i as int]@);
                assert(words@.len() == pieces(words@).len());
            }
            if words.len() != 2 {
                proof {
                    lemma_declared_inputs_prefix(texts, i + 1);
                }
                return Err(GeneratorError::new(ErrorKind::MalformedSignature, line));
            }
            proof {
                assert(pieces(words@)[0] == words@[0]@);
                assert(pieces(words@)[1] == words@[1]@);
            }
            match Self::from_chars(words[0]) {
                Some(arg_type) => {
                    inputs.insert(slice_to_vec(words[1]), arg_type);
                },
                None => {
                    proof {
                        lemma_declared_inputs_prefix(texts, i + 1);
                    }
                    return Err(GeneratorError::new(ErrorKind::MalformedSignature, line));
                },
            }
            i += 1;
        }
        assert(texts.take(groups@.len() as int) =~= texts);
        Ok(inputs)
    }

    /// The type of the literal `value`.
    pub fn infer_type_from_value(value: &str) -> (r: Self)
        ensures
            r == literal_type(value@),
    {
        let chars = to_chars(value);
        Self::infer_type_from_chars(chars.as_slice())
    }

    /// The type of the literal made of the characters `value`.
    pub fn infer_type_from_chars(value: &[char]) -> (r: Self)
        ensures
            r == literal_type(value@),
    {
        let value = trim_chars(value);
        let n = value.len();
        proof {
            reveal_strlit("0x");
        }
        if is_word(value, "true") || is_word(value, "false") {
            return PrimitiveSolidityType::Bool;
        }
        let hex = starts_with(value, "0x");
        if hex && n == 42 && all_hex_chars(slice_subrange(value, 2, n)) {
            return PrimitiveSolidityType::Address;
        }
        if n > 0 && value[0] == '"' && value[n - 1] == '"' {
            return PrimitiveSolidityType::String;
        }
        if hex {
            let byte_length = (n - 2) / 2;
            if byte_length <= 32 {
                return PrimitiveSolidityType::FixedBytes(byte_length as u8);
            }
            return PrimitiveSolidityType::Bytes;
        }
        if let Some(num) = parse_integer(value) {
            if num < 0 {
                return PrimitiveSolidityType::Int(256);
            }
            return PrimitiveSolidityType::Uint(256);
        }
        PrimitiveSolidityType::String
    }

    /// Whether `assignment` can be read as an assignment of a literal:
    /// what `from_assignment` asks of its argument.
    pub fn is_assignment(assignment: &str) -> (r: bool)
        ensures
            r == is_literal_assignment(assignment@),
    {
        let chars = to_chars(assignment);
        let parts = split_chars(trim_chars(chars.as_slice()), '=');
        if parts.len() != 2 {
            return false;
        }
        proof {
            assert(pieces(parts@)[0] == parts@[0]@);
        }
        let left_side = trim_chars(parts[0]);
        let open = find_char(left_side, '[');
        let close = find_char(left_side, ']');
        if open < left_side.len() && close < left_side.len() {
            open < close
        } else {
            !(left_side.len() > 0 && left_side[left_side.len() - 1] == ']')
        }
    }

    /// The type that the assignment of a literal gives its left side.
    pub fn from_assignment(assignment: &str) -> (r: Self)
        requires
            is_literal_assignment(assignment@),
        ensures
            r == literal_assignment_type(assignment@),
    {
        let chars = to_chars(assignment);
        let parts = split_chars(trim_chars(chars.as_slice()), '=');
        proof {
            assert(pieces(parts@)[0] == parts@[0]@);
            assert(pieces(parts@)[1] == parts@[1]@);
        }
        let left_side = trim_chars(parts[0]);
        let value = Self::infer_type_from_chars(parts[1]);
        let open = find_char(left_side, '[');
        let close = find_char(left_side, ']');
        if open < left_side.len() && close < left_side.len() {
            let key_value = slice_subrange(left_side, open + 1, close);
            return PrimitiveSolidityType::Mapping {
                key: Box::new(Self::infer_type_from_chars(key_value)),
                value: Box::new(value),
            };
        }
        value
    }
}

} // verus!
