//! The state that reading a body builds up, and the rules by which a line
//! changes it.
use crate::decimal::{
    all_hex, all_hex_chars, parse_integer, parse_number, parse_signed, parse_unsigned,
};
use crate::error::{ErrorKind, Failure, GeneratorError};
use crate::table::{lemma_position_is, lookup, upsert, NameTable};
use crate::text::{
    find, find_char, find_last, find_last_char, find_sub, find_text, is_word, lemma_find,
    lemma_find_last, lemma_find_sub, lemma_split_on, lemma_trim, pieces, split_by, split_chars,
    split_on, split_text, split_words, starts_with, strip_trailing, strip_trailing_char, to_chars,
    tokens, trim, trim_chars,
};
use crate::types::{parse_signature, parse_spelling, PrimitiveSolidityType};
use vstd::prelude::*;
use vstd::slice::{slice_subrange, slice_to_vec};

verus! {

/// Who may read a state variable of the contract.
#[derive(Clone, Copy, Debug, PartialEq, Eq, Structural)]
pub enum Visbility {
    Public,
    Private,
    Immutable,
}

/// The state as a value of the specification: four tables, each a
/// sequence of names with what they stand for, in the order in which the
/// names first came.
pub struct GeneratorState {
    /// The state variables of the contract, found in assignments.
    pub global_states: Seq<(Seq<char>, PrimitiveSolidityType)>,
    /// The visibilities that were set, whether or not the name is a state
    /// variable.
    pub visibilities: Seq<(Seq<char>, Visbility)>,
    /// The local variables: those of the calling context and those that
    /// were declared.
    pub local_state: Seq<(Seq<char>, PrimitiveSolidityType)>,
    /// The parameters of the last `lambda` signature.
    pub lambda_inputs: Seq<(Seq<char>, PrimitiveSolidityType)>,
}

/// The type of the variable `name`: that of the local variable of this
/// name, else that of the `lambda` parameter, else that of the state
/// variable.
pub open spec fn variable_type(st: GeneratorState, name: Seq<char>) -> Option<
    PrimitiveSolidityType,
> {
    if lookup(st.local_state, name) is Some {
        lookup(st.local_state, name)
    } else if lookup(st.lambda_inputs, name) is Some {
        lookup(st.lambda_inputs, name)
    } else {
        lookup(st.global_states, name)
    }
}

/// The type of the expression `value`, or `None` where it is neither a
/// literal nor a known name. The first rule that applies decides:
///
/// 1. `true` and `false` are `Bool`;
/// 2. `0x` and 40 hexadecimal digits are an `Address`;
/// 3. text that begins and ends with `"` is a `String`;
/// 4. any other text that begins with `0x` is `FixedBytes` of half the
///    number of characters after the `0x`, or `Bytes` where that is more
///    than 32;
/// 5. text from `[` to `]` is an array of the type of what stands before
///    the first comma, of fixed length up to 32 elements;
/// 6. a signed number of 64 bits is `Int(256)` where it is negative, else
///    `Uint(256)`;
/// 7. a name has the type of the variable.
///
/// In the fourth rule the characters after `0x` are counted, not looked
/// at.
pub open spec fn infer(st: GeneratorState, value: Seq<char>) -> Option<PrimitiveSolidityType>
    decreases value.len(),
{
    let n = value.len() as int;
    if value == "true"@ || value == "false"@ {
        Some(PrimitiveSolidityType::Bool)
    } else if n == 42 && "0x"@.is_prefix_of(value) && all_hex(value.skip(2)) {
        Some(PrimitiveSolidityType::Address)
    } else if n > 0 && value[0] == '"' && value.last() == '"' {
        Some(PrimitiveSolidityType::String)
    } else if n >= 2 && "0x"@.is_prefix_of(value) {
        if (n - 2) / 2 <= 32 {
            Some(PrimitiveSolidityType::FixedBytes(((n - 2) / 2) as u8))
        } else {
            Some(PrimitiveSolidityType::Bytes)
        }
    } else if n >= 2 && value[0] == '[' && value.last() == ']' {
        let inner = trim(value.subrange(1, n - 1));
        let first = trim(inner.take(find(inner, ',')));
        proof {
            lemma_trim(value.subrange(1, n - 1));
            lemma_find(inner, ',');
            lemma_trim(inner.take(find(inner, ',')));
        }
        match infer(st, first) {
            None => None,
            Some(element) => if split_on(inner, ',').len() <= 32 {
                Some(
                    PrimitiveSolidityType::Array(
                        Box::new(element),
                        split_on(inner, ',').len() as usize,
                    ),
                )
            } else {
                Some(PrimitiveSolidityType::DynamicArray(Box::new(element)))
            },
        }
    } else if parse_signed(value, i64::MIN as int, i64::MAX as int) is Some {
        if parse_signed(value, i64::MIN as int, i64::MAX as int)->0 < 0 {
            Some(PrimitiveSolidityType::Int(256))
        } else {
            Some(PrimitiveSolidityType::Uint(256))
        }
    } else {
        variable_type(st, value)
    }
}

/// Whether `line` is the signature of the function `lambda`: its first
/// word is `function`, and its second word, up to the first `(`, is
/// `lambda`.
pub open spec fn is_lambda_line(line: Seq<char>) -> bool {
    let words = tokens(line);
    words.len() >= 2 && words[0] == "function"@ && words[1].take(find(words[1], '(')) == "lambda"@
}

/// The name and the keys of an indexed left side: the name is what stands
/// before the first `[`, the keys are what stands between it and the last
/// `]`, split at each `][`. `None` where the left side holds no `[` with a
/// `]` after it.
pub open spec fn mapping_parts(left: Seq<char>) -> Option<(Seq<char>, Seq<Seq<char>>)> {
    let open = find(left, '[');
    let close = find_last(left, ']');
    if 0 <= open < close < left.len() {
        Some((trim(left.take(open)), split_by(trim(left.subrange(open + 1, close)), "]["@)))
    } else {
        None
    }
}

/// The name and the index of an indexed left side, the index ending at the
/// first `]`. `None` where the left side holds no `[` with a `]` after it.
pub open spec fn array_parts(left: Seq<char>) -> Option<(Seq<char>, Seq<char>)> {
    let open = find(left, '[');
    let close = find(left, ']');
    if 0 <= open < close < left.len() {
        Some((trim(left.take(open)), trim(left.subrange(open + 1, close))))
    } else {
        None
    }
}

/// The state variable that the assignment `line` is about, and its type.
///
/// The line must hold exactly one `=`. Where its left side is indexed with
/// more than one key or with an empty key, the variable is `Nested`. With
/// one key, the key and the right side must both have a type; a key that
/// is a number of at most 32 makes the variable an array of that length,
/// any other key a mapping. A left side without index is the name of the
/// variable, which takes the type of the right side.
pub open spec fn assignment_of(st: GeneratorState, line: Seq<char>) -> Result<
    (Seq<char>, PrimitiveSolidityType),
    Failure,
> {
    let parts = split_on(line, '=');
    if parts.len() != 2 {
        Err(Failure { kind: ErrorKind::MalformedAssignment, text: line })
    } else {
        let left = trim(parts[0]);
        let right = strip_trailing(trim(parts[1]), ';');
        match mapping_parts(left) {
            Some((base, keys)) => if keys.len() > 1 || keys[0].len() == 0 {
                Ok((base, PrimitiveSolidityType::Nested))
            } else {
                match (infer(st, keys[0]), infer(st, right)) {
                    (None, _) => Err(
                        Failure { kind: ErrorKind::UnresolvedExpression, text: keys[0] },
                    ),
                    (Some(_), None) => Err(
                        Failure { kind: ErrorKind::UnresolvedExpression, text: right },
                    ),
                    (Some(key_type), Some(value_type)) => if parse_unsigned(keys[0], 32) is Some {
                        Ok(
                            (
                                base,
                                PrimitiveSolidityType::Array(
                                    Box::new(value_type),
                                    parse_unsigned(keys[0], 32)->0 as usize,
                                ),
                            ),
                        )
                    } else {
                        Ok(
                            (
                                base,
                                PrimitiveSolidityType::Mapping {
                                    key: Box::new(key_type),
                                    value: Box::new(value_type),
                                },
                            ),
                        )
                    },
                }
            },
            None => match infer(st, right) {
                None => Err(Failure { kind: ErrorKind::UnresolvedExpression, text: right }),
                Some(assigned_type) => Ok((left, assigned_type)),
            },
        }
    }
}

/// Whether `line` declares a local variable: its first word spells a type.
pub open spec fn is_declaration(line: Seq<char>) -> bool {
    tokens(line).len() >= 1 && parse_spelling(tokens(line)[0]) is Some
}

/// The state after a declaration or an assignment. Where the first word
/// of the line spells a type, the line declares a local variable: the
/// second word, without the `;` at its end, is its name, what follows is
/// not looked at, and a line without second word is malformed. Any other
/// line is an assignment to a state variable.
pub open spec fn assign(st: GeneratorState, line: Seq<char>) -> Result<GeneratorState, Failure> {
    let words = tokens(line);
    if is_declaration(line) {
        if words.len() < 2 {
            Err(Failure { kind: ErrorKind::MalformedDeclaration, text: line })
        } else {
            Ok(
                GeneratorState {
                    local_state: upsert(
                        st.local_state,
                        strip_trailing(words[1], ';'),
                        parse_spelling(words[0])->0,
                    ),
                    ..st
                },
            )
        }
    } else {
        match assignment_of(st, line) {
            Ok((name, assigned_type)) => Ok(
                GeneratorState { global_states: upsert(st.global_states, name, assigned_type), ..st },
            ),
            Err(failure) => Err(failure),
        }
    }
}

/// What counts of a line of the body: what stands before the first `//`,
/// without the white space around it.
pub open spec fn code_of(raw: Seq<char>) -> Seq<char> {
    trim(raw.take(find_sub(raw, "//"@)))
}

/// The state after one line of the body. An empty line changes nothing; a
/// signature of `lambda` replaces the parameters; any other line whose
/// first word spells a type is a declaration, with or without `=`; any
/// other line that holds `=` is an assignment; every other line changes
/// nothing.
#[verifier::opaque]
pub open spec fn step(st: GeneratorState, raw: Seq<char>) -> Result<GeneratorState, Failure> {
    let line = code_of(raw);
    if line.len() == 0 {
        Ok(st)
    } else if is_lambda_line(line) {
        match parse_signature(line) {
            Some(inputs) => Ok(GeneratorState { lambda_inputs: inputs, ..st }),
            None => Err(Failure { kind: ErrorKind::MalformedSignature, text: line }),
        }
    } else if is_declaration(line) || find(line, '=') < line.len() {
        assign(st, line)
    } else {
        Ok(st)
    }
}

/// The state after the lines of a body, and the failure that ended the
/// reading, if one did: the lines are taken in order, and the first that
/// fails ends the reading with the state as the lines before it left it.
pub open spec fn run(st: GeneratorState, lines: Seq<Seq<char>>) -> (GeneratorState, Option<Failure>)
    decreases lines.len(),
{
    if lines.len() == 0 {
        (st, None)
    } else {
        match step(st, lines[0]) {
            Ok(next) => run(next, lines.skip(1)),
            Err(failure) => (st, Some(failure)),
        }
    }
}

/// The state of a new generator: the three variables of the calling
/// context are local, and nothing else is known.
pub open spec fn initial_state() -> GeneratorState {
    GeneratorState {
        global_states: Seq::empty(),
        visibilities: Seq::empty(),
        local_state: seq![
            ("msg.sender"@, PrimitiveSolidityType::Address),
            ("msg.value"@, PrimitiveSolidityType::Uint(256)),
            ("msg.data"@, PrimitiveSolidityType::Bytes),
        ],
        lambda_inputs: Seq::empty(),
    }
}

/// The state in which nothing is known.
pub open spec fn empty_state() -> GeneratorState {
    GeneratorState {
        global_states: Seq::empty(),
        visibilities: Seq::empty(),
        local_state: Seq::empty(),
        lambda_inputs: Seq::empty(),
    }
}

/// Whether `line` is the signature of the function `lambda`.
pub fn is_lambda(line: &[char]) -> (r: bool)
    ensures
        r == is_lambda_line(line@),
{
    let words = split_words(line);
    if words.len() < 2 {
        return false;
    }
    proof {
        assert(pieces(words@)[0] == words@[0]@);
        assert(pieces(words@)[1] == words@[1]@);
        lemma_find(words@[1]@, '(');
    }
    let second = words[1];
    let val = slice_subrange(second, 0, find_char(second, '('));
    is_word(words[0], "function") && is_word(val, "lambda")
}

/// Whether `line` declares a local variable.
pub fn is_local_declaration(line: &[char]) -> (r: bool)
    ensures
        r == is_declaration(line@),
{
    let words = split_words(line);
    if words.len() == 0 {
        return false;
    }
    proof {
        assert(pieces(words@)[0] == words@[0]@);
    }
    PrimitiveSolidityType::from_chars(words[0]).is_some()
}

/// The name and the keys of the indexed left side `expr`.
pub fn extract_mapping_parts<'a>(expr: &'a [char]) -> (r: Option<(&'a [char], Vec<&'a [char]>)>)
    ensures
        match r {
            Some((base, keys)) => mapping_parts(expr@) == Some((base@, pieces(keys@))) && keys@.len()
                >= 1,
            None => mapping_parts(expr@) is None,
        },
{
    let open = find_char(expr, '[');
    proof {
        lemma_find(expr@, '[');
        lemma_find_last(expr@, ']');
        reveal_strlit("][");
    }
    match find_last_char(expr, ']') {
        Some(close) => {
            if open < close {
                let base_name = trim_chars(slice_subrange(expr, 0, open));
                let key = trim_chars(slice_subrange(expr, open + 1, close));
                let separator = to_chars("][");
                let keys = split_text(key, separator.as_slice());
                Some((base_name, keys))
            } else {
                None
            }
        },
        None => None,
    }
}

/// The name and the index of the indexed left side `expr`, the index
/// ending at the first `]`.
pub fn extract_array_parts<'a>(expr: &'a [char]) -> (r: Option<(&'a [char], &'a [char])>)
    ensures
        match r {
            Some((base, index)) => array_parts(expr@) == Some((base@, index@)),
            None => array_parts(expr@) is None,
        },
{
    let open = find_char(expr, '[');
    let close = find_char(expr, ']');
    proof {
        lemma_find(expr@, '[');
        lemma_find(expr@, ']');
    }
    if open < close && close < expr.len() {
        let base_name = trim_chars(slice_subrange(expr, 0, open));
        let index = trim_chars(slice_subrange(expr, open + 1, close));
        Some((base_name, index))
    } else {
        None
    }
}

/// The state of one generator: what reading bodies has found so far.
#[derive(Debug)]
pub struct ContractGenerator {
    global_states: NameTable<PrimitiveSolidityType>,
    global_visibilities: NameTable<Visbility>,
    local_state: NameTable<PrimitiveSolidityType>,
    lambda_func_inputs: NameTable<PrimitiveSolidityType>,
}

impl View for ContractGenerator {
    type V = GeneratorState;

    closed spec fn view(&self) -> GeneratorState {
        GeneratorState {
            global_states: self.global_states@,
            visibilities: self.global_visibilities@,
            local_state: self.local_state@,
            lambda_inputs: self.lambda_func_inputs@,
        }
    }
}

impl ContractGenerator {
    /// The type of the variable `var_name`, or `None` where no table
    /// holds the name.
    pub fn get_variable_type(&self, var_name: &[char]) -> (r: Option<PrimitiveSolidityType>)
        ensures
            r == variable_type(self@, var_name@),
    {
        if let Some(ty) = self.local_state.get_chars(var_name) {
            return Some(ty.clone());
        }
        if let Some(ty) = self.lambda_func_inputs.get_chars(var_name) {
            return Some(ty.clone());
        }
        match self.global_states.get_chars(var_name) {
            Some(ty) => Some(ty.clone()),
            None => None,
        }
    }

    /// The type of the expression `value`, or `None` where it is neither
    /// a literal nor a known name.
    pub fn infer_type(&self, value: &[char]) -> (r: Option<PrimitiveSolidityType>)
        ensures
            r == infer(self@, value@),
        decreases value@.len(),
    {
        let n = value.len();
        proof {
            reveal_strlit("0x");
        }
        if is_word(value, "true") || is_word(value, "false") {
            return Some(PrimitiveSolidityType::Bool);
        }
        let hex = starts_with(value, "0x");
        if hex && n == 42 && all_hex_chars(slice_subrange(value, 2, n)) {
            return Some(PrimitiveSolidityType::Address);
        }
        if n > 0 && value[0] == '"' && value[n - 1] == '"' {
            return Some(PrimitiveSolidityType::String);
        }
        if hex {
            let byte_length = (n - 2) / 2;
            if byte_length <= 32 {
                return Some(PrimitiveSolidityType::FixedBytes(byte_length as u8));
            }
            return Some(PrimitiveSolidityType::Bytes);
        }
        if n >= 2 && value[0] == '[' && value[n - 1] == ']' {
            let inner = trim_chars(slice_subrange(value, 1, n - 1));
            let parts = split_chars(inner, ',');
            proof {
                lemma_trim(value@.subrange(1, n - 1));
                lemma_find(inner@, ',');
                lemma_split_on(inner@, ',');
                lemma_trim(inner@.take(find(inner@, ',')));
                assert(pieces(parts@)[0] == parts@[0]@);
            }
            let first = trim_chars(parts[0]);
            return match self.infer_type(first) {
                None => None,
                Some(element) => {
                    let size = parts.len();
                    if size <= 32 {
                        Some(PrimitiveSolidityType::Array(Box::new(element), size))
                    } else {
                        Some(PrimitiveSolidityType::DynamicArray(Box::new(element)))
                    }
                },
            };
        }
        if let Some(num) = parse_integer(value) {
            if num < 0 {
                return Some(PrimitiveSolidityType::Int(256));
            }
            return Some(PrimitiveSolidityType::Uint(256));
        }
        self.get_variable_type(value)
    }

    /// The type of the expression `value`, or the failure
    /// `UnresolvedExpression` about it.
    pub fn infer_type_from_value(&self, value: &[char]) -> (r: Result<
        PrimitiveSolidityType,
        GeneratorError,
    >)
        ensures
            match r {
                Ok(ty) => infer(self@, value@) == Some(ty),
                Err(e) => infer(self@, value@) is None && e@ == (Failure {
                    kind: ErrorKind::UnresolvedExpression,
                    text: value@,
                }),
            },
    {
        match self.infer_type(value) {
            Some(ty) => Ok(ty),
            None => Err(GeneratorError::new(ErrorKind::UnresolvedExpression, value)),
        }
    }

    /// The state variable that the assignment `line` is about, and its
    /// type. The state is only read.
    pub fn parse_assignment(&self, line: &[char]) -> (r: Result<
        (Vec<char>, PrimitiveSolidityType),
        GeneratorError,
    >)
        ensures
            match r {
                Ok((name, ty)) => assignment_of(self@, line@) == Ok::<_, Failure>((name@, ty)),
                Err(e) => assignment_of(self@, line@) == Err::<
                    (Seq<char>, PrimitiveSolidityType),
                    _,
                >(e@),
            },
    {
        let parts = split_chars(line, '=');
        if parts.len() != 2 {
            return Err(GeneratorError::new(ErrorKind::MalformedAssignment, line));
        }
        proof {
            assert(pieces(parts@)[0] == parts@[0]@);
            assert(pieces(parts@)[1] == parts@[1]@);
        }
        let left_side = trim_chars(parts[0]);
        let right_side = strip_trailing_char(trim_chars(parts[1]), ';');

        if let Some((base_name, keys)) = extract_mapping_parts(left_side) {
            proof {
                assert(pieces(keys@)[0] == keys@[0]@);
            }
            if keys.len() > 1 || keys[0].len() == 0 {
                return Ok((slice_to_vec(base_name), PrimitiveSolidityType::Nested));
            }
            let key = keys[0];
            let key_type = match self.infer_type_from_value(key) {
                Ok(ty) => ty,
                Err(e) => {
                    return Err(e);
                },
            };
            let value_type = match self.infer_type_from_value(right_side) {
                Ok(ty) => ty,
                Err(e) => {
                    return Err(e);
                },
            };
            if let Some(size) = parse_number(key, 32) {
                return Ok(
                    (
                        slice_to_vec(base_name),
                        PrimitiveSolidityType::Array(Box::new(value_type), size as usize),
                    ),
                );
            }
            return Ok(
                (
                    slice_to_vec(base_name),
                    PrimitiveSolidityType::Mapping {
                        key: Box::new(key_type),
                        value: Box::new(value_type),
                    },
                ),
            );
        }
        match self.infer_type_from_value(right_side) {
            Ok(assigned_type) => Ok((slice_to_vec(left_side), assigned_type)),
            Err(e) => Err(e),
        }
    }

    /// Takes in a declaration of a local variable or an assignment to a
    /// state variable. A line that fails leaves the state as it was.
    pub fn process_assignment(&mut self, line: &[char]) -> (r: Result<(), GeneratorError>)
        ensures
            match r {
                Ok(_) => assign(old(self)@, line@) == Ok::<_, Failure>(final(self)@),
                Err(e) => assign(old(self)@, line@) == Err::<GeneratorState, _>(e@) && final(self)@
                    == old(self)@,
            },
    {
        let words = split_words(line);
        if words.len() >= 1 {
            proof {
                assert(pieces(words@)[0] == words@[0]@);
            }
            if let Some(primitive_type) = PrimitiveSolidityType::from_chars(words[0]) {
                if words.len() < 2 {
                    return Err(GeneratorError::new(ErrorKind::MalformedDeclaration, line));
                }
                proof {
                    assert(pieces(words@)[1] == words@[1]@);
                }
                let name = slice_to_vec(strip_trailing_char(words[1], ';'));
                self.local_state.insert(name, primitive_type);
                return Ok(());
            }
        }
        match self.parse_assignment(line) {
            Ok((var_name, var_type)) => {
                self.global_states.insert(var_name, var_type);
                Ok(())
            },
            Err(e) => Err(e),
        }
    }

    /// Takes in a signature of `lambda`: its parameters replace those
    /// that were known. A malformed signature leaves the state as it was.
    pub fn process_lambda_declaration(&mut self, line: &[char]) -> (r: Result<(), GeneratorError>)
        ensures
            match r {
                Ok(_) => parse_signature(line@) == Some(final(self)@.lambda_inputs) && final(self)@
                    == (GeneratorState {
                    lambda_inputs: final(self)@.lambda_inputs,
                    ..old(self)@
                }),
                Err(e) => parse_signature(line@) is None && e@ == (Failure {
                    kind: ErrorKind::MalformedSignature,
                    text: line@,
                }) && final(self)@ == old(self)@,
            },
    {
        match PrimitiveSolidityType::signature_inputs(line) {
            Ok(func_args) => {
                self.lambda_func_inputs = func_args;
                Ok(())
            },
            Err(e) => Err(e),
        }
    }

    /// Takes in one line of a body. A line that fails leaves the state as
    /// it was.
    pub fn process_line(&mut self, raw: &[char]) -> (r: Result<(), GeneratorError>)
        ensures
            match r {
                Ok(_) => step(old(self)@, raw@) == Ok::<_, Failure>(final(self)@),
                Err(e) => step(old(self)@, raw@) == Err::<GeneratorState, _>(e@) && final(self)@
                    == old(self)@,
            },
    {
        proof {
            reveal(step);
            reveal_strlit("//");
            lemma_find_sub(raw@, "//"@);
        }
        let marker = to_chars("//");
        let line = trim_chars(slice_subrange(raw, 0, find_text(raw, marker.as_slice())));
        if line.len() == 0 {
            return Ok(());
        }
        if is_lambda(line) {
            return self.process_lambda_declaration(line);
        }
        proof {
            lemma_find(line@, '=');
        }
        if is_local_declaration(line) || find_char(line, '=') < line.len() {
            return self.process_assignment(line);
        }
        Ok(())
    }

    /// Reads the body `function` line by line. The first line that fails
    /// ends the reading: its failure is returned, and the state stays as
    /// the lines before it left it.
    pub fn process_lambda(&mut self, function: String) -> (r: Result<(), GeneratorError>)
        ensures
            final(self)@ == run(old(self)@, split_on(function@, '\n')).0,
            match r {
                Ok(_) => run(old(self)@, split_on(function@, '\n')).1 is None,
                Err(e) => run(old(self)@, split_on(function@, '\n')).1 == Some(e@),
            },
    {
        let chars = to_chars(function.as_str());
        let lines = split_chars(chars.as_slice(), '\n');
        let ghost texts = pieces(lines@);
        let mut i: usize = 0;
        assert(texts.skip(0) =~= texts);
        while i < lines.len()
            invariant
                i <= lines@.len(),
                texts == pieces(lines@),
                texts == split_on(function@, '\n'),
                run(old(self)@, texts) == run(self@, texts.skip(i as int)),
            decreases lines@.len() - i,
        {
            proof {
                assert(texts.skip(i as int)[0] == lines@[i as int]@);
                assert(texts.skip(i as int).skip(1) =~= texts.skip(i + 1));
            }
            let ghost before = self@;
            match self.process_line(lines[i]) {
                Ok(_) => {
                    assert(run(before, texts.skip(i as int)) == run(self@, texts.skip(i + 1)));
                },
                Err(e) => {
                    assert(run(before, texts.skip(i as int)) == (before, Some(e@)));
                    return Err(e);
                },
            }
            i += 1;
        }
        Ok(())
    }

    /// Sets the visibility of `variable`, whether or not a state variable
    /// of this name is known.
    pub fn set_visibility(&mut self, variable: &str, visibility: Visbility)
        ensures
            final(self)@ == (GeneratorState {
                visibilities: upsert(old(self)@.visibilities, variable@, visibility),
                ..old(self)@
            }),
    {
        self.global_visibilities.insert(to_chars(variable), visibility);
    }

    /// Forgets everything, the variables of the calling context too.
    pub fn clear(&mut self)
        ensures
            final(self)@ == empty_state(),
    {
        self.global_states.clear();
        self.global_visibilities.clear();
        self.local_state.clear();
        self.lambda_func_inputs.clear();
    }

    /// A new generator.
    pub fn new() -> (r: Self)
        ensures
            r@ == initial_state(),
    {
        let mut local_state: NameTable<PrimitiveSolidityType> = NameTable::new();
        proof {
            reveal_strlit("msg.sender");
            reveal_strlit("msg.value");
            reveal_strlit("msg.data");
        }
        let ghost sender = "msg.sender"@;
        let ghost value = "msg.value"@;
        let ghost data = "msg.data"@;
        let ghost first = seq![(sender, PrimitiveSolidityType::Address)];
        let ghost second = first.push((value, PrimitiveSolidityType::Uint(256)));
        local_state.insert(to_chars("msg.sender"), PrimitiveSolidityType::Address);
        assert(local_state@ =~= first);
        proof {
            assert(sender.len() != value.len());
            lemma_position_is(first, value, 1);
        }
        local_state.insert(to_chars("msg.value"), PrimitiveSolidityType::Uint(256));
        assert(local_state@ =~= second);
        proof {
            assert(sender.len() != data.len());
            assert(value.len() != data.len());
            lemma_position_is(second, data, 2);
        }
        local_state.insert(to_chars("msg.data"), PrimitiveSolidityType::Bytes);
        assert(local_state@ =~= initial_state().local_state);
        ContractGenerator {
            global_states: NameTable::new(),
            local_state,
            lambda_func_inputs: NameTable::new(),
            global_visibilities: NameTable::new(),
        }
    }

    /// The state variables of the contract.
    pub fn global_states(&self) -> (r: &NameTable<PrimitiveSolidityType>)
        ensures
            r@ == self@.global_states,
    {
        &self.global_states
    }

    /// The visibilities that were set.
    pub fn global_visibilities(&self) -> (r: &NameTable<Visbility>)
        ensures
            r@ == self@.visibilities,
    {
        &self.global_visibilities
    }

    /// The local variables.
    pub fn local_state(&self) -> (r: &NameTable<PrimitiveSolidityType>)
        ensures
            r@ == self@.local_state,
    {
        &self.local_state
    }

    /// The parameters of the last `lambda` signature.
    pub fn lambda_func_inputs(&self) -> (r: &NameTable<PrimitiveSolidityType>)
        ensures
            r@ == self@.lambda_inputs,
    {
        &self.lambda_func_inputs
    }
}

impl Default for ContractGenerator {
    /// A new generator.
    fn default() -> (r: Self)
        ensures
            r@ == initial_state(),
    {
        ContractGenerator::new()
    }
}

impl Clone for ContractGenerator {
    /// A generator in the same state.
    fn clone(&self) -> (r: Self)
        ensures
            r@ == self@,
    {
        let r = ContractGenerator {
            global_states: self.global_states.clone(),
            global_visibilities: self.global_visibilities.clone(),
            local_state: self.local_state.clone(),
            lambda_func_inputs: self.lambda_func_inputs.clone(),
        };
        assert(r.global_states@ =~= self.global_states@);
        assert(r.global_visibilities@ =~= self.global_visibilities@);
        assert(r.local_state@ =~= self.local_state@);
        assert(r.lambda_func_inputs@ =~= self.lambda_func_inputs@);
        r
    }
}

/// A signature of `lambda` sets the parameters to those that it declares,
/// whatever the parameters were before, and changes nothing else.
pub proof fn lemma_signature_replaces(st: GeneratorState, raw: Seq<char>)
    requires
        code_of(raw).len() > 0,
        is_lambda_line(code_of(raw)),
        parse_signature(code_of(raw)) is Some,
    ensures
        step(st, raw) == Ok::<_, Failure>(
            GeneratorState { lambda_inputs: parse_signature(code_of(raw))->0, ..st },
        ),
{
    reveal(step);
}

/// A line with more than one `=` before its comment, which is neither a
/// signature of `lambda` nor a declaration, fails as a malformed
/// assignment, and the reading ends with the state as it was before the
/// line.
pub proof fn lemma_second_equals_sign_fails(
    st: GeneratorState,
    raw: Seq<char>,
    rest: Seq<Seq<char>>,
)
    requires
        !is_lambda_line(code_of(raw)),
        !is_declaration(code_of(raw)),
        split_on(code_of(raw), '=').len() > 2,
    ensures
        step(st, raw) == Err::<GeneratorState, _>(
            Failure { kind: ErrorKind::MalformedAssignment, text: code_of(raw) },
        ),
        run(st, seq![raw] + rest) == (
            st,
            Some(Failure { kind: ErrorKind::MalformedAssignment, text: code_of(raw) }),
        ),
{
    reveal(step);
    let line = code_of(raw);
    lemma_find(line, '=');
    assert((seq![raw] + rest)[0] == raw);
}

/// An assignment whose left side has more than one key makes the variable
/// `Nested` in every state, whatever the keys and the right side are.
pub proof fn lemma_many_keys_are_nested(st: GeneratorState, line: Seq<char>)
    requires
        split_on(line, '=').len() == 2,
        mapping_parts(trim(split_on(line, '=')[0])) matches Some((_, keys)) && keys.len() > 1,
    ensures
        mapping_parts(trim(split_on(line, '=')[0])) matches Some((base, _)) && assignment_of(
            st,
            line,
        ) == Ok::<_, Failure>((base, PrimitiveSolidityType::Nested)),
{
}

/// Reading is cumulative: a body read after another is read in the state
/// that the first one left, and a failure in the first ends the reading
/// of both.
pub proof fn lemma_run_continues(st: GeneratorState, first: Seq<Seq<char>>, second: Seq<Seq<char>>)
    ensures
        run(st, first + second) == if run(st, first).1 is Some {
            run(st, first)
        } else {
            run(run(st, first).0, second)
        },
    decreases first.len(),
{
    if first.len() == 0 {
        assert(first + second =~= second);
    } else {
        let all = first + second;
        assert(all[0] == first[0]);
        assert(all.skip(1) =~= first.skip(1) + second);
        match step(st, first[0]) {
            Ok(next) => {
                lemma_run_continues(next, first.skip(1), second);
            },
            Err(_) => {},
        }
    }
}

/// Reading never touches the visibilities: they change only where they are
/// set.
pub proof fn lemma_run_keeps_visibilities(st: GeneratorState, lines: Seq<Seq<char>>)
    ensures
        run(st, lines).0.visibilities == st.visibilities,
    decreases lines.len(),
{
    if lines.len() > 0 {
        reveal(step);
        match step(st, lines[0]) {
            Ok(next) => {
                lemma_run_keeps_visibilities(next, lines.skip(1));
            },
            Err(_) => {},
        }
    }
}

} // verus!
