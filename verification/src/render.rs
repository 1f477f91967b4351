//! The source text that a generator's state stands for, and the filling
//! of templates with it.
use crate::decimal::{decimal, push_decimal};
use crate::generator::{ContractGenerator, Visbility};
use crate::table::{lookup, NameTable};
use crate::text::{append, append_str, pieces, split_by, split_text, to_chars, to_text};
use crate::types::{spelling, PrimitiveSolidityType};
use vstd::prelude::*;

verus! {

/// The texts `parts`, with `separator` between each two.
pub open spec fn joined(parts: Seq<Seq<char>>, separator: Seq<char>) -> Seq<char>
    decreases parts.len(),
{
    if parts.len() == 0 {
        Seq::empty()
    } else if parts.len() == 1 {
        parts[0]
    } else {
        joined(parts.drop_last(), separator) + separator + parts.last()
    }
}

/// `content` with `replacement` in place of each occurrence of `marker`,
/// the occurrences found from the left and not overlapping. The empty
/// marker occurs nowhere.
pub open spec fn replace_all(content: Seq<char>, marker: Seq<char>, replacement: Seq<char>) -> Seq<
    char,
> {
    joined(split_by(content, marker), replacement)
}

/// The word for a visibility.
pub open spec fn visibility_word(visibility: Visbility) -> Seq<char> {
    match visibility {
        Visbility::Public => "public"@,
        Visbility::Private => "private"@,
        Visbility::Immutable => "immutable"@,
    }
}

/// The visibility of `name`: the one that was set, else `Public`.
pub open spec fn visibility_of(visibilities: Seq<(Seq<char>, Visbility)>, name: Seq<char>) -> Visbility {
    match lookup(visibilities, name) {
        Some(visibility) => visibility,
        None => Visbility::Public,
    }
}

/// The declaration of one state variable: the spelling of its type, its
/// visibility and its name, a space between each two, then `;` and the end
/// of the line.
pub open spec fn state_line(
    name: Seq<char>,
    ty: PrimitiveSolidityType,
    visibility: Visbility,
) -> Seq<char> {
    spelling(ty) + " "@ + visibility_word(visibility) + " "@ + name + ";\n"@
}

/// The declarations of the state variables, one line each, in the order of
/// the table.
pub open spec fn state_text(
    globals: Seq<(Seq<char>, PrimitiveSolidityType)>,
    visibilities: Seq<(Seq<char>, Visbility)>,
) -> Seq<char>
    decreases globals.len(),
{
    if globals.len() == 0 {
        Seq::empty()
    } else {
        state_text(globals.drop_last(), visibilities) + state_line(
            globals.last().0,
            globals.last().1,
            visibility_of(visibilities, globals.last().0),
        )
    }
}

/// The parameters as they continue a list of formal parameters: for each,
/// in the order of the table, a comma, a space, the spelling of its type,
/// a space and its name.
pub open spec fn arguments_text(inputs: Seq<(Seq<char>, PrimitiveSolidityType)>) -> Seq<char>
    decreases inputs.len(),
{
    if inputs.len() == 0 {
        Seq::empty()
    } else {
        arguments_text(inputs.drop_last()) + ", "@ + spelling(inputs.last().1) + " "@
            + inputs.last().0
    }
}

/// The names of the entries, in the order of the table.
pub open spec fn names_of<V>(entries: Seq<(Seq<char>, V)>) -> Seq<Seq<char>> {
    Seq::new(entries.len(), |i: int| entries[i].0)
}

/// The function that hands the parameters on to `lambda`: they follow the
/// address in its list of formal parameters, and their names are the
/// arguments of the call.
pub open spec fn gateway_text(inputs: Seq<(Seq<char>, PrimitiveSolidityType)>) -> Seq<char> {
    "function callLambda( \n            address lambdaAddress\n            "@ + arguments_text(
        inputs,
    ) + " \n        ) public preExecutionChecks async { \n            Lambda lambda = Lambda(lambdaAddress); \n            lambda.lambda("@
        + joined(names_of(inputs), ", "@) + "); \n        }"@
}

/// Appends to `out` the texts `parts` with `separator` between each two.
pub fn append_joined(out: &mut Vec<char>, parts: &Vec<&[char]>, separator: &[char])
    ensures
        final(out)@ == old(out)@ + joined(pieces(parts@), separator@),
{
    let ghost texts = pieces(parts@);
    let mut i: usize = 0;
    assert(texts.take(0) =~= Seq::<Seq<char>>::empty());
    assert(out@ =~= old(out)@ + Seq::<char>::empty());
    while i < parts.len()
        invariant
            i <= parts@.len(),
            texts == pieces(parts@),
            out@ == old(out)@ + joined(texts.take(i as int), separator@),
        decreases parts@.len() - i,
    {
        let ghost before = out@;
        let ghost done = joined(texts.take(i as int), separator@);
        if i > 0 {
            append(out, separator);
        }
        append(out, parts[i]);
        proof {
            let next = texts.take(i + 1);
            assert(next.drop_last() =~= texts.take(i as int));
            assert(next.last() == parts@[i as int]@);
            if i > 0 {
                assert(out@ =~= old(out)@ + (done + separator@ + parts@[i as int]@));
            } else {
                assert(done =~= Seq::<char>::empty());
                assert(out@ =~= old(out)@ + parts@[i as int]@);
            }
        }
        i += 1;
    }
    assert(texts.take(parts@.len() as int) =~= texts);
}

/// `content` with `replacement` in place of each occurrence of `marker`.
/// The empty marker occurs nowhere.
pub fn replace_marker(content: &[char], marker: &[char], replacement: &[char]) -> (r: Vec<char>)
    ensures
        r@ == replace_all(content@, marker@, replacement@),
{
    let parts = split_text(content, marker);
    let mut out: Vec<char> = Vec::new();
    append_joined(&mut out, &parts, replacement);
    assert(out@ =~= joined(pieces(parts@), replacement@));
    out
}

/// The path of the directory `dir` among the generated projects.
pub fn output_path(dir: &str) -> (r: String)
    ensures
        r@ == "output/"@ + dir@,
{
    let mut out: Vec<char> = Vec::new();
    append_str(&mut out, "output/");
    append_str(&mut out, dir);
    assert(out@ =~= "output/"@ + dir@);
    to_text(out.as_slice())
}

/// The name of the directory of a generated project: `lambda_`, the time
/// stamp, `_` and the hash, both in decimal.
pub fn lambda_directory(timestamp: u64, hash: u64) -> (r: String)
    ensures
        r@ == "lambda_"@ + decimal(timestamp as nat) + "_"@ + decimal(hash as nat),
{
    let mut out: Vec<char> = Vec::new();
    append_str(&mut out, "lambda_");
    push_decimal(&mut out, timestamp);
    append_str(&mut out, "_");
    push_decimal(&mut out, hash);
    assert(out@ =~= "lambda_"@ + decimal(timestamp as nat) + "_"@ + decimal(hash as nat));
    to_text(out.as_slice())
}

/// The path of the file `file` below the directory `dir`.
fn file_below(dir: &str, file: &str) -> (r: String)
    ensures
        r@ == dir@ + "/"@ + file@,
{
    let mut out: Vec<char> = Vec::new();
    append_str(&mut out, dir);
    append_str(&mut out, "/");
    append_str(&mut out, file);
    assert(out@ =~= dir@ + "/"@ + file@);
    to_text(out.as_slice())
}

/// The path of the contract's source below the project directory `dir`.
pub fn lambda_file(dir: &str) -> (r: String)
    ensures
        r@ == dir@ + "/"@ + "src/Lambda.sol"@,
{
    file_below(dir, "src/Lambda.sol")
}

/// The path of the gateway's source below the project directory `dir`.
pub fn lambda_apg_file(dir: &str) -> (r: String)
    ensures
        r@ == dir@ + "/"@ + "src/LambdaAppGateway.sol"@,
{
    file_below(dir, "src/LambdaAppGateway.sol")
}

/// The path of the contract's test below the project directory `dir`.
pub fn lambda_test_file(dir: &str) -> (r: String)
    ensures
        r@ == dir@ + "/"@ + "test/LambdaTest.sol"@,
{
    file_below(dir, "test/LambdaTest.sol")
}

/// Appends to `out` the parameters as they continue a list of formal
/// parameters, and returns their names in order.
pub fn append_arguments<'a>(
    out: &mut Vec<char>,
    inputs: &'a NameTable<PrimitiveSolidityType>,
) -> (names: Vec<&'a [char]>)
    ensures
        final(out)@ == old(out)@ + arguments_text(inputs@),
        pieces(names@) == names_of(inputs@),
{
    let mut names: Vec<&'a [char]> = Vec::new();
    let mut i: usize = 0;
    assert(inputs@.take(0) =~= Seq::<(Seq<char>, PrimitiveSolidityType)>::empty());
    assert(out@ =~= old(out)@ + Seq::<char>::empty());
    assert(pieces(names@) =~= names_of(inputs@.take(0)));
    while i < inputs.len()
        invariant
            i <= inputs@.len(),
            out@ == old(out)@ + arguments_text(inputs@.take(i as int)),
            pieces(names@) == names_of(inputs@.take(i as int)),
            names@.len() == i,
        decreases inputs@.len() - i,
    {
        let name = inputs.name_at(i);
        let var_type = inputs.value_at(i);
        let ghost done = arguments_text(inputs@.take(i as int));
        let ghost names_before = names@;
        append_str(out, ", ");
        var_type.write_spelling(out);
        append_str(out, " ");
        append(out, name);
        names.push(name);
        proof {
            let next = inputs@.take(i + 1);
            assert(next.drop_last() =~= inputs@.take(i as int));
            assert(next.last() == inputs@[i as int]);
            assert(out@ =~= old(out)@ + (done + ", "@ + spelling(*var_type) + " "@ + name@));
            assert forall|j: int| 0 <= j < i + 1 implies pieces(names@)[j] == names_of(next)[j] by {
                if j < i {
                    assert(pieces(names_before)[j] == names_of(inputs@.take(i as int))[j]);
                }
            }
            assert(pieces(names@) =~= names_of(next));
        }
        i += 1;
    }
    assert(inputs@.take(inputs@.len() as int) =~= inputs@);
    names
}

impl ContractGenerator {
    /// The declarations of the state variables, one line each.
    pub fn global_state_string(&self) -> (r: String)
        ensures
            r@ == state_text(self@.global_states, self@.visibilities),
    {
        let globals = self.global_states();
        let visibilities = self.global_visibilities();
        let mut out: Vec<char> = Vec::new();
        let mut i: usize = 0;
        assert(globals@.take(0) =~= Seq::<(Seq<char>, PrimitiveSolidityType)>::empty());
        while i < globals.len()
            invariant
                i <= globals@.len(),
                out@ == state_text(globals@.take(i as int), visibilities@),
            decreases globals@.len() - i,
        {
            let var_name = globals.name_at(i);
            let var_type = globals.value_at(i);
            let ghost before = out@;
            let ghost visibility = visibility_of(visibilities@, var_name@);
            var_type.write_spelling(&mut out);
            append_str(&mut out, " ");
            match visibilities.get_chars(var_name) {
                Some(Visbility::Public) => append_str(&mut out, "public"),
                Some(Visbility::Private) => append_str(&mut out, "private"),
                Some(Visbility::Immutable) => append_str(&mut out, "immutable"),
                None => append_str(&mut out, "public"),
            }
            append_str(&mut out, " ");
            append(&mut out, var_name);
            append_str(&mut out, ";\n");
            proof {
                let next = globals@.take(i + 1);
                assert(next.drop_last() =~= globals@.take(i as int));
                assert(next.last() == globals@[i as int]);
                assert(out@ =~= before + state_line(var_name@, *var_type, visibility));
            }
            i += 1;
        }
        assert(globals@.take(globals@.len() as int) =~= globals@);
        to_text(out.as_slice())
    }

    /// The function that hands the parameters on to `lambda`.
    pub fn lambda_apg_content(&self) -> (r: String)
        ensures
            r@ == gateway_text(self@.lambda_inputs),
    {
        let inputs = self.lambda_func_inputs();
        let mut out: Vec<char> = Vec::new();
        append_str(
            &mut out,
            "function callLambda( \n            address lambdaAddress\n            ",
        );
        let ghost head = out@;
        let names = append_arguments(&mut out, inputs);
        let ghost with_arguments = out@;
        append_str(
            &mut out,
            " \n        ) public preExecutionChecks async { \n            Lambda lambda = Lambda(lambdaAddress); \n            lambda.lambda(",
        );
        let ghost with_middle = out@;
        let separator = to_chars(", ");
        append_joined(&mut out, &names, separator.as_slice());
        let ghost with_names = out@;
        append_str(&mut out, "); \n        }");
        proof {
            assert(head =~= "function callLambda( \n            address lambdaAddress\n            "@);
            assert(with_names == with_middle + joined(names_of(inputs@), ", "@));
            assert(out@ == with_names + "); \n        }"@);
        }
        to_text(out.as_slice())
    }

    /// The contract's source: the template `content` with the body
    /// `function` in place of each `//lambda_here`, and then the
    /// declarations of the state variables in place of each
    /// `//states_here`.
    pub fn lambda_source(&self, content: &str, function: &str) -> (r: String)
        ensures
            r@ == replace_all(
                replace_all(content@, "//lambda_here"@, function@),
                "//states_here"@,
                state_text(self@.global_states, self@.visibilities),
            ),
    {
        proof {
            reveal_strlit("//lambda_here");
            reveal_strlit("//states_here");
        }
        let template = to_chars(content);
        let body = to_chars(function);
        let comment = to_chars("//lambda_here");
        let with_body = replace_marker(template.as_slice(), comment.as_slice(), body.as_slice());
        let state_comment = to_chars("//states_here");
        let state_content = self.global_state_string();
        let state_chars = to_chars(state_content.as_str());
        let new_content = replace_marker(
            with_body.as_slice(),
            state_comment.as_slice(),
            state_chars.as_slice(),
        );
        to_text(new_content.as_slice())
    }

    /// The gateway's source: the template `content` with the function that
    /// hands the parameters on in place of each `//lambda_here`.
    pub fn gateway_source(&self, content: &str) -> (r: String)
        ensures
            r@ == replace_all(content@, "//lambda_here"@, gateway_text(self@.lambda_inputs)),
    {
        proof {
            reveal_strlit("//lambda_here");
        }
        let template = to_chars(content);
        let comment = to_chars("//lambda_here");
        let gateway = self.lambda_apg_content();
        let gateway_chars = to_chars(gateway.as_str());
        let new_content = replace_marker(
            template.as_slice(),
            comment.as_slice(),
            gateway_chars.as_slice(),
        );
        to_text(new_content.as_slice())
    }
}

} // verus!
