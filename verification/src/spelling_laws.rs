//! Reading a spelling gives the type back.
use crate::decimal::{decimal, is_digit, lemma_decimal, lemma_parse_decimal, read_digits};
use crate::text::{
    depth, find_last, find_outside, is_space, lemma_depth_concat, lemma_depth_flat,
    lemma_find_last, lemma_find_last_is, lemma_find_outside, lemma_find_outside_is, lemma_trim,
    lemma_trim_fixed, occurs_at, outside_at, trim,
};
use crate::types::{parse_spelling, spelling, PrimitiveSolidityType};
use vstd::prelude::*;

verus! {

/// The types whose spelling is read back as the type itself: those that
/// hold no `Nested`, and no `FixedBytes` outside 1 to 32.
pub open spec fn canonical(t: PrimitiveSolidityType) -> bool
    decreases t,
{
    match t {
        PrimitiveSolidityType::Nested => false,
        PrimitiveSolidityType::FixedBytes(size) => 1 <= size <= 32,
        PrimitiveSolidityType::Array(inner, _) => canonical(*inner),
        PrimitiveSolidityType::DynamicArray(inner) => canonical(*inner),
        PrimitiveSolidityType::Mapping { key, value } => canonical(*key) && canonical(*value),
        _ => true,
    }
}

/// Whether `c` is a small letter, a digit or a space.
pub open spec fn is_plain(c: char) -> bool {
    0x61 <= c as u32 <= 0x7a || is_digit(c) || c == ' '
}

/// Whether `s` is not empty, holds small letters, digits and spaces only,
/// begins with a letter and does not end with a space.
pub open spec fn is_plain_word(s: Seq<char>) -> bool {
    &&& s.len() > 0
    &&& forall|i: int| 0 <= i < s.len() ==> is_plain(#[trigger] s[i])
    &&& 0x61 <= s[0] as u32 <= 0x7a
    &&& s.last() != ' '
}

/// Whether `s` could be the spelling of a type: it is not empty, begins
/// with a small letter, does not end with white space, closes every `(`
/// that it opens, and holds `=` only between `(` and `)`.
pub open spec fn is_well_nested(s: Seq<char>) -> bool {
    &&& s.len() > 0
    &&& 0x61 <= s[0] as u32 <= 0x7a
    &&& !is_space(s.last())
    &&& depth(s) == 0
    &&& forall|q: int| 0 <= q < s.len() && s[q] == '=' ==> depth(#[trigger] s.take(q)) >= 1
}

/// A word followed by a number is a plain word that ends with a digit.
proof fn lemma_word_number(word: Seq<char>, n: nat)
    requires
        is_plain_word(word),
    ensures
        is_plain_word(word + decimal(n)),
        (word + decimal(n)).len() > word.len(),
        is_digit((word + decimal(n)).last()),
{
    lemma_decimal(n);
    let s = word + decimal(n);
    assert forall|i: int| 0 <= i < s.len() implies is_plain(#[trigger] s[i]) by {
        if i >= word.len() {
            assert(s[i] == decimal(n)[i - word.len()]);
        }
    }
    assert(s.last() == decimal(n).last());
}

/// The spelling of a type that is neither an array nor a mapping nor
/// `Nested` is a plain word.
proof fn lemma_simple_spelling(t: PrimitiveSolidityType)
    requires
        !(t is Array),
        !(t is DynamicArray),
        !(t is Mapping),
        !(t is Nested),
    ensures
        is_plain_word(spelling(t)),
{
    reveal_strlit("bool");
    reveal_strlit("string");
    reveal_strlit("bytes");
    reveal_strlit("address");
    reveal_strlit("address payable");
    reveal_strlit("uint");
    reveal_strlit("int");
    match t {
        PrimitiveSolidityType::FixedBytes(size) => {
            lemma_word_number("bytes"@, size as nat);
        },
        PrimitiveSolidityType::Int(bits) => {
            lemma_word_number("int"@, bits as nat);
        },
        PrimitiveSolidityType::Uint(bits) => {
            lemma_word_number("uint"@, bits as nat);
        },
        _ => {},
    }
}

/// A plain word is well nested.
proof fn lemma_plain_is_well_nested(s: Seq<char>)
    requires
        is_plain_word(s),
    ensures
        is_well_nested(s),
{
    assert forall|i: int| 0 <= i < s.len() implies s[i] != '(' && s[i] != ')' by {
        assert(is_plain(s[i]));
    }
    lemma_depth_flat(s);
    assert forall|q: int| 0 <= q < s.len() && s[q] == '=' implies depth(#[trigger] s.take(q))
        >= 1 by {
        assert(is_plain(s[q]));
    }
    assert(is_plain(s.last()));
}

/// Well-nested text followed by `[`, digits and `]` is well nested.
proof fn lemma_suffix_is_well_nested(e: Seq<char>, tail: Seq<char>)
    requires
        is_well_nested(e),
        tail.len() > 0,
        tail.last() == ']',
        forall|i: int| 0 <= i < tail.len() ==> tail[i] != '(' && tail[i] != ')' && tail[i] != '=',
    ensures
        is_well_nested(e + tail),
{
    let s = e + tail;
    lemma_depth_flat(tail);
    lemma_depth_concat(e, tail);
    assert(s[0] == e[0]);
    assert(s.last() == tail.last());
    assert forall|q: int| 0 <= q < s.len() && s[q] == '=' implies depth(#[trigger] s.take(q))
        >= 1 by {
        if q < e.len() {
            assert(s[q] == e[q]);
            assert(s.take(q) =~= e.take(q));
        } else {
            assert(s[q] == tail[q - e.len()]);
        }
    }
}

/// `mapping(`, well-nested text, `=>`, well-nested text and `)` are well
/// nested together.
proof fn lemma_mapping_is_well_nested(k: Seq<char>, v: Seq<char>)
    requires
        is_well_nested(k),
        is_well_nested(v),
    ensures
        is_well_nested("mapping("@ + k + "=>"@ + v + ")"@),
        depth("mapping("@) == 1,
        depth("=>"@) == 0,
{
    reveal_strlit("mapping(");
    reveal_strlit("=>");
    reveal_strlit(")");
    let head = "mapping("@;
    let arrow = "=>"@;
    let close = ")"@;
    let s = head + k + arrow + v + close;
    lemma_depth_flat(head.drop_last());
    lemma_depth_flat(arrow);
    assert(close.drop_last() =~= Seq::<char>::empty());
    assert(depth(Seq::<char>::empty()) == 0);
    assert(close.last() == ')');
    assert(depth(close) == -1);
    assert(head.last() == '(');
    assert(depth(head) == 1);
    lemma_depth_concat(head, k);
    lemma_depth_concat(head + k, arrow);
    lemma_depth_concat(head + k + arrow, v);
    lemma_depth_concat(head + k + arrow + v, close);
    assert(s[0] == 'm');
    assert(s.last() == ')');
    assert forall|q: int| 0 <= q < s.len() && s[q] == '=' implies depth(#[trigger] s.take(q))
        >= 1 by {
        if q < 8 {
            assert(s[q] == head[q]);
        } else if q < 8 + k.len() {
            assert(s[q] == k[q - 8]);
            assert(s.take(q) =~= head + k.take(q - 8));
            lemma_depth_concat(head, k.take(q - 8));
        } else if q < 8 + k.len() + 2 {
            assert(s[q] == arrow[q - 8 - k.len()]);
            assert(s.take(q) =~= head + k);
        } else if q < 8 + k.len() + 2 + v.len() {
            let r = q - 8 - k.len() - 2;
            assert(s[q] == v[r]);
            assert(s.take(q) =~= head + k + arrow + v.take(r));
            lemma_depth_concat(head + k + arrow, v.take(r));
        } else {
            assert(s[q] == ')');
        }
    }
}

/// The spelling of a type that `canonical` admits is well nested.
pub proof fn lemma_spelling_shape(t: PrimitiveSolidityType)
    requires
        canonical(t),
    ensures
        is_well_nested(spelling(t)),
    decreases t,
{
    match t {
        PrimitiveSolidityType::Array(inner, size) => {
            lemma_spelling_shape(*inner);
            reveal_strlit("[");
            reveal_strlit("]");
            lemma_decimal(size as nat);
            let tail = "["@ + decimal(size as nat) + "]"@;
            assert forall|i: int| 0 <= i < tail.len() implies tail[i] != '(' && tail[i] != ')'
                && tail[i] != '=' by {
                if 1 <= i < tail.len() - 1 {
                    assert(tail[i] == decimal(size as nat)[i - 1]);
                }
            }
            lemma_suffix_is_well_nested(spelling(*inner), tail);
            assert(spelling(t) =~= spelling(*inner) + tail);
        },
        PrimitiveSolidityType::DynamicArray(inner) => {
            lemma_spelling_shape(*inner);
            reveal_strlit("[]");
            lemma_suffix_is_well_nested(spelling(*inner), "[]"@);
        },
        PrimitiveSolidityType::Mapping { key, value } => {
            lemma_spelling_shape(*key);
            lemma_spelling_shape(*value);
            lemma_mapping_is_well_nested(spelling(*key), spelling(*value));
        },
        _ => {
            lemma_simple_spelling(t);
            lemma_plain_is_well_nested(spelling(t));
        },
    }
}

/// Text that begins with `u`, `i` or `m` is none of the words, and begins
/// with no other numbered word than its own.
proof fn lemma_first_letter(s: Seq<char>)
    requires
        s.len() > 0,
        s[0] == 'u' || s[0] == 'i' || s[0] == 'm',
    ensures
        s != "bool"@,
        s != "string"@,
        s != "bytes"@,
        s != "address"@,
        s != "address payable"@,
        s[0] != 'u' ==> !"uint"@.is_prefix_of(s),
        s[0] != 'i' ==> !"int"@.is_prefix_of(s),
        !"bytes"@.is_prefix_of(s),
{
    reveal_strlit("bool");
    reveal_strlit("string");
    reveal_strlit("bytes");
    reveal_strlit("address");
    reveal_strlit("address payable");
    reveal_strlit("uint");
    reveal_strlit("int");
    if "uint"@.is_prefix_of(s) {
        assert(s.subrange(0, 4)[0] == 'u');
    }
    if "int"@.is_prefix_of(s) {
        assert(s.subrange(0, 3)[0] == 'i');
    }
    if "bytes"@.is_prefix_of(s) {
        assert(s.subrange(0, 5)[0] == 'b');
    }
}

/// Text that ends with `]` or `)` is none of the words and no numbered
/// word.
proof fn lemma_no_word_matches(s: Seq<char>)
    requires
        s.len() > 0,
        s.last() == ']' || s.last() == ')',
    ensures
        s != "bool"@,
        s != "string"@,
        s != "bytes"@,
        s != "address"@,
        s != "address payable"@,
        s.len() >= 4 ==> read_digits(s.skip(4), 0xffff) is None,
        s.len() >= 3 ==> read_digits(s.skip(3), 0xffff) is None,
        s.len() > 5 ==> read_digits(s.skip(5), 0xff) is None,
{
    reveal_strlit("bool");
    reveal_strlit("string");
    reveal_strlit("bytes");
    reveal_strlit("address");
    reveal_strlit("address payable");
    if s.len() > 4 {
        assert(s.skip(4).last() == s.last());
    }
    if s.len() > 3 {
        assert(s.skip(3).last() == s.last());
    }
    if s.len() > 5 {
        assert(s.skip(5).last() == s.last());
    }
}

/// What the rule for arrays gives for the text `s`, which is taken as it
/// stands.
pub open spec fn array_rule(s: Seq<char>) -> Option<PrimitiveSolidityType> {
    let i = find_last(s, '[');
    let length = s.subrange(i + 1, s.len() - 1);
    if i < 0 {
        None
    } else {
        match parse_spelling(s.take(i)) {
            None => None,
            Some(base) => if length.len() == 0 {
                Some(PrimitiveSolidityType::DynamicArray(Box::new(base)))
            } else if read_digits(length, usize::MAX as nat) is Some {
                Some(
                    PrimitiveSolidityType::Array(
                        Box::new(base),
                        read_digits(length, usize::MAX as nat)->0 as usize,
                    ),
                )
            } else {
                None
            },
        }
    }
}

/// What the rule for mappings gives for the text `s`, which is taken as it
/// stands.
pub open spec fn mapping_rule(s: Seq<char>) -> Option<PrimitiveSolidityType> {
    let inner = s.subrange(8, s.len() - 1);
    let j = find_outside(inner, "=>"@);
    if s.len() >= 9 && "mapping("@.is_prefix_of(s) && 0 <= j && j + 2 <= inner.len() {
        match (parse_spelling(inner.take(j)), parse_spelling(inner.skip(j + 2))) {
            (Some(key), Some(value)) => Some(
                PrimitiveSolidityType::Mapping { key: Box::new(key), value: Box::new(value) },
            ),
            _ => None,
        }
    } else {
        None
    }
}

/// Text that ends with `]`, without white space around it, is read by the
/// rule for arrays.
proof fn lemma_read_by_array_rule(s: Seq<char>)
    requires
        trim(s) == s,
        s.len() > 0,
        s.last() == ']',
    ensures
        parse_spelling(s) == array_rule(s),
{
    reveal(parse_spelling);
    lemma_no_word_matches(s);
}

/// Text that ends with `)`, without white space around it, is read by the
/// rule for mappings.
proof fn lemma_read_by_mapping_rule(s: Seq<char>)
    requires
        trim(s) == s,
        s.len() > 0,
        s.last() == ')',
    ensures
        parse_spelling(s) == mapping_rule(s),
{
    reveal(parse_spelling);
    lemma_no_word_matches(s);
}

/// The round trip for the types that are spelled as one of the words.
proof fn lemma_round_trip_word(t: PrimitiveSolidityType)
    requires
        t is Bool || t is String || t is Bytes || t is Address || t is AddressPayable,
    ensures
        parse_spelling(spelling(t)) == Some(t),
{
    reveal(parse_spelling);
    let s = spelling(t);
    lemma_simple_spelling(t);
    lemma_trim_fixed(s);
    reveal_strlit("bool");
    reveal_strlit("string");
    reveal_strlit("bytes");
    reveal_strlit("address");
    reveal_strlit("address payable");
}

/// The round trip for an unsigned integer.
proof fn lemma_round_trip_uint(bits: u16)
    ensures
        parse_spelling(spelling(PrimitiveSolidityType::Uint(bits))) == Some(
            PrimitiveSolidityType::Uint(bits),
        ),
{
    reveal(parse_spelling);
    let s = spelling(PrimitiveSolidityType::Uint(bits));
    lemma_simple_spelling(PrimitiveSolidityType::Uint(bits));
    lemma_trim_fixed(s);
    reveal_strlit("uint");
    lemma_parse_decimal(bits as nat, 0xffff);
    assert(s.skip(4) =~= decimal(bits as nat));
    assert(s[0] == 'u');
    assert(s.subrange(0, 4) =~= "uint"@);
    lemma_first_letter(s);
}

/// The round trip for a signed integer.
proof fn lemma_round_trip_int(bits: u16)
    ensures
        parse_spelling(spelling(PrimitiveSolidityType::Int(bits))) == Some(
            PrimitiveSolidityType::Int(bits),
        ),
{
    reveal(parse_spelling);
    let s = spelling(PrimitiveSolidityType::Int(bits));
    lemma_simple_spelling(PrimitiveSolidityType::Int(bits));
    lemma_trim_fixed(s);
    reveal_strlit("int");
    lemma_parse_decimal(bits as nat, 0xffff);
    assert(s.skip(3) =~= decimal(bits as nat));
    assert(s[0] == 'i');
    assert(s.subrange(0, 3) =~= "int"@);
    lemma_first_letter(s);
}

/// The round trip for a fixed number of bytes.
proof fn lemma_round_trip_fixed_bytes(size: u8)
    requires
        1 <= size <= 32,
    ensures
        parse_spelling(spelling(PrimitiveSolidityType::FixedBytes(size))) == Some(
            PrimitiveSolidityType::FixedBytes(size),
        ),
{
    reveal(parse_spelling);
    let s = spelling(PrimitiveSolidityType::FixedBytes(size));
    lemma_simple_spelling(PrimitiveSolidityType::FixedBytes(size));
    lemma_trim_fixed(s);
    reveal_strlit("bool");
    reveal_strlit("string");
    reveal_strlit("bytes");
    reveal_strlit("address");
    reveal_strlit("address payable");
    reveal_strlit("uint");
    reveal_strlit("int");
    lemma_decimal(size as nat);
    lemma_parse_decimal(size as nat, 0xff);
    assert(s.skip(5) =~= decimal(size as nat));
    assert(s[0] == 'b');
    assert(s[1] == 'y');
    assert(s.len() > 5);
    assert(s.subrange(0, 5) =~= "bytes"@);
}

/// The round trip for an array of fixed length.
proof fn lemma_round_trip_array(inner: PrimitiveSolidityType, size: usize)
    requires
        canonical(inner),
        parse_spelling(spelling(inner)) == Some(inner),
    ensures
        parse_spelling(spelling(PrimitiveSolidityType::Array(Box::new(inner), size))) == Some(
            PrimitiveSolidityType::Array(Box::new(inner), size),
        ),
{
    let t = PrimitiveSolidityType::Array(Box::new(inner), size);
    let s = spelling(t);
    let e = spelling(inner);
    let d = decimal(size as nat);
    lemma_spelling_shape(t);
    lemma_trim_fixed(s);
    reveal_strlit("[");
    reveal_strlit("]");
    lemma_decimal(size as nat);
    assert(s =~= e + seq!['['] + d + seq![']']);
    assert(s.last() == ']');
    lemma_read_by_array_rule(s);
    let i = e.len() as int;
    assert(s[i] == '[');
    assert forall|j: int| i < j < s.len() implies s[j] != '[' by {
        if j < s.len() - 1 {
            assert(s[j] == d[j - i - 1]);
        }
    }
    lemma_find_last_is(s, '[', i);
    assert(s.take(i) =~= e);
    assert(s.subrange(i + 1, s.len() - 1) =~= d);
    lemma_parse_decimal(size as nat, usize::MAX as nat);
}

/// The round trip for an array of any length.
proof fn lemma_round_trip_dynamic_array(inner: PrimitiveSolidityType)
    requires
        canonical(inner),
        parse_spelling(spelling(inner)) == Some(inner),
    ensures
        parse_spelling(spelling(PrimitiveSolidityType::DynamicArray(Box::new(inner)))) == Some(
            PrimitiveSolidityType::DynamicArray(Box::new(inner)),
        ),
{
    let t = PrimitiveSolidityType::DynamicArray(Box::new(inner));
    let s = spelling(t);
    let e = spelling(inner);
    lemma_spelling_shape(t);
    lemma_trim_fixed(s);
    reveal_strlit("[]");
    assert(s =~= e + seq!['[', ']']);
    assert(s.last() == ']');
    lemma_read_by_array_rule(s);
    let i = e.len() as int;
    assert(s[i] == '[');
    lemma_find_last_is(s, '[', i);
    assert(s.take(i) =~= e);
    assert(s.subrange(i + 1, s.len() - 1) =~= Seq::<char>::empty());
}

/// The round trip for a mapping.
proof fn lemma_round_trip_mapping(key: PrimitiveSolidityType, value: PrimitiveSolidityType)
    requires
        canonical(key),
        canonical(value),
        parse_spelling(spelling(key)) == Some(key),
        parse_spelling(spelling(value)) == Some(value),
    ensures
        parse_spelling(
            spelling(PrimitiveSolidityType::Mapping { key: Box::new(key), value: Box::new(value) }),
        ) == Some(PrimitiveSolidityType::Mapping { key: Box::new(key), value: Box::new(value) }),
{
    let t = PrimitiveSolidityType::Mapping { key: Box::new(key), value: Box::new(value) };
    let s = spelling(t);
    let k = spelling(key);
    let v = spelling(value);
    let arrow = "=>"@;
    lemma_spelling_shape(t);
    lemma_spelling_shape(key);
    lemma_spelling_shape(value);
    lemma_trim_fixed(s);
    reveal_strlit("mapping(");
    reveal_strlit("=>");
    reveal_strlit(")");
    assert(s =~= "mapping("@ + k + seq!['=', '>'] + v + seq![')']);
    assert(s.last() == ')');
    assert(s[0] == 'm');
    assert(s.subrange(0, 8) =~= "mapping("@);
    lemma_read_by_mapping_rule(s);
    let inner = s.subrange(8, s.len() - 1);
    assert(inner =~= k + seq!['=', '>'] + v);
    let j = k.len() as int;
    assert(inner.subrange(j, j + 2) =~= arrow);
    assert(inner.take(j) =~= k);
    assert forall|q: int| 0 <= q < j implies !outside_at(inner, arrow, q) by {
        if occurs_at(inner, arrow, q) {
            assert(inner.subrange(q, q + 2)[0] == '=');
            assert(inner[q] == k[q]);
            assert(inner.take(q) =~= k.take(q));
        }
    }
    lemma_find_outside_is(inner, arrow, j);
    assert(inner.skip(j + 2) =~= v);
}

/// Reading the spelling of a type gives the type back, for every type
/// that holds no `Nested` and no `FixedBytes` outside 1 to 32.
pub proof fn lemma_round_trip(t: PrimitiveSolidityType)
    requires
        canonical(t),
    ensures
        parse_spelling(spelling(t)) == Some(t),
    decreases t,
{
    match t {
        PrimitiveSolidityType::Array(inner, size) => {
            lemma_round_trip(*inner);
            lemma_round_trip_array(*inner, size);
        },
        PrimitiveSolidityType::DynamicArray(inner) => {
            lemma_round_trip(*inner);
            lemma_round_trip_dynamic_array(*inner);
        },
        PrimitiveSolidityType::Mapping { key, value } => {
            lemma_round_trip(*key);
            lemma_round_trip(*value);
            lemma_round_trip_mapping(*key, *value);
        },
        PrimitiveSolidityType::Uint(bits) => {
            lemma_round_trip_uint(bits);
        },
        PrimitiveSolidityType::Int(bits) => {
            lemma_round_trip_int(bits);
        },
        PrimitiveSolidityType::FixedBytes(size) => {
            lemma_round_trip_fixed_bytes(size);
        },
        _ => {
            lemma_round_trip_word(t);
        },
    }
}

/// Every type that reading gives holds no `Nested` and no `FixedBytes`
/// outside 1 to 32.
pub proof fn lemma_read_is_canonical(x: Seq<char>)
    ensures
        parse_spelling(x) matches Some(t) ==> canonical(t),
    decreases x.len(),
{
    let s = trim(x);
    reveal(parse_spelling);
    lemma_trim(x);
    reveal_strlit("=>");
    if s.len() > 0 && s.last() == ']' {
        lemma_find_last(s, '[');
        let i = find_last(s, '[');
        if i >= 0 {
            lemma_read_is_canonical(s.take(i));
        }
    }
    if s.len() >= 9 {
        let inner = s.subrange(8, s.len() - 1);
        let j = find_outside(inner, "=>"@);
        lemma_find_outside(inner, "=>"@);
        if j + 2 <= inner.len() {
            lemma_read_is_canonical(inner.take(j));
            lemma_read_is_canonical(inner.skip(j + 2));
        }
    }
}

/// The spelling of a type that came from reading is read back as the same
/// type.
pub proof fn lemma_read_spell_read(x: Seq<char>)
    ensures
        parse_spelling(x) matches Some(t) ==> parse_spelling(spelling(t)) == Some(t),
{
    if parse_spelling(x) is Some {
        lemma_read_is_canonical(x);
        lemma_round_trip(parse_spelling(x)->0);
    }
}

/// A type is read back from its spelling exactly if it holds no `Nested`
/// and no `FixedBytes` outside 1 to 32.
pub proof fn lemma_round_trip_exactly(t: PrimitiveSolidityType)
    ensures
        parse_spelling(spelling(t)) == Some(t) <==> canonical(t),
{
    if canonical(t) {
        lemma_round_trip(t);
    }
    lemma_read_is_canonical(spelling(t));
}

} // verus!
