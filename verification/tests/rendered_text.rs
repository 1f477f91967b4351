use parser::render::{
    lambda_apg_file, lambda_directory, lambda_file, lambda_test_file, output_path, replace_marker,
};
use parser::text::to_chars;
use parser::{ContractGenerator, Visbility};

fn replaced(content: &str, marker: &str, with: &str) -> String {
    let out: String =
        replace_marker(&to_chars(content), &to_chars(marker), &to_chars(with)).iter().collect();
    assert_eq!(out, content.replace(marker, with));
    out
}

#[test]
fn state_variables_are_declared_one_per_line() {
    let mut generator = ContractGenerator::default();
    generator
        .process_lambda(
            "function lambda(address user)\ntotal = 5;\nbalances[user] = total;\nflags[a][b] = 1;\nlist[2] = true;"
                .to_string(),
        )
        .unwrap();
    assert_eq!(
        generator.global_state_string(),
        "uint256 public total;\nmapping(address=>uint256) public balances;\n public flags;\nbool[2] public list;\n"
    );
}

#[test]
fn visibility_that_was_set_is_used() {
    let mut generator = ContractGenerator::default();
    generator.set_visibility("b", Visbility::Private);
    generator.set_visibility("ghost", Visbility::Immutable);
    generator.process_lambda("a = 1;\nb = true;\nc = -1;".to_string()).unwrap();
    generator.set_visibility("c", Visbility::Immutable);
    generator.set_visibility("a", Visbility::Private);
    generator.set_visibility("a", Visbility::Public);
    assert_eq!(
        generator.global_state_string(),
        "uint256 public a;\nbool private b;\nint256 immutable c;\n"
    );
    assert_eq!(generator.global_visibilities().len(), 4);
    assert_eq!(generator.global_visibilities().get("ghost"), Some(&Visbility::Immutable));
    assert_eq!(generator.global_states().get("ghost"), None);
}

#[test]
fn no_state_variables_give_no_text() {
    let generator = ContractGenerator::default();
    assert_eq!(generator.global_state_string(), "");
}

#[test]
fn overwritten_variable_keeps_its_place() {
    let mut generator = ContractGenerator::default();
    generator.process_lambda("a = 1;\nb = 2;\na = true;".to_string()).unwrap();
    assert_eq!(generator.global_state_string(), "bool public a;\nuint256 public b;\n");
}

#[test]
fn dispatcher_forwards_the_parameters() {
    let mut generator = ContractGenerator::default();
    generator
        .process_lambda("function lambda(address user, uint256 tokenId) returns (bool) {".to_string())
        .unwrap();
    assert_eq!(
        generator.lambda_apg_content(),
        "function callLambda( \n            address lambdaAddress\n            , address user, uint256 tokenId \n        ) public preExecutionChecks async { \n            Lambda lambda = Lambda(lambdaAddress); \n            lambda.lambda(user, tokenId); \n        }"
    );
}

#[test]
fn dispatcher_without_parameters() {
    let generator = ContractGenerator::default();
    assert_eq!(
        generator.lambda_apg_content(),
        "function callLambda( \n            address lambdaAddress\n             \n        ) public preExecutionChecks async { \n            Lambda lambda = Lambda(lambdaAddress); \n            lambda.lambda(); \n        }"
    );
}

#[test]
fn dispatcher_with_one_parameter() {
    let mut generator = ContractGenerator::default();
    generator.process_lambda("function lambda(bytes32[] ids)".to_string()).unwrap();
    assert_eq!(
        generator.lambda_apg_content(),
        "function callLambda( \n            address lambdaAddress\n            , bytes32[] ids \n        ) public preExecutionChecks async { \n            Lambda lambda = Lambda(lambdaAddress); \n            lambda.lambda(ids); \n        }"
    );
}

#[test]
fn every_marker_is_replaced() {
    assert_eq!(replaced("a//x b//x", "//x", "Y"), "aY bY");
    assert_eq!(replaced("//x", "//x", ""), "");
    assert_eq!(replaced("no marker", "//x", "Y"), "no marker");
    assert_eq!(replaced("", "//x", "Y"), "");
    assert_eq!(replaced("aaa", "aa", "b"), "ba");
    assert_eq!(replaced("//x//x", "//x", "//x!"), "//x!//x!");
    assert_eq!(replaced("/x/", "/", "//"), "//x//");
}

#[test]
fn contract_source_is_filled_in() {
    let mut generator = ContractGenerator::default();
    generator.process_lambda("count = 1;".to_string()).unwrap();
    let template = "contract Lambda {\n    //states_here\n    //lambda_here\n}\n";
    assert_eq!(
        generator.lambda_source(template, "function lambda() { count = 1; }"),
        "contract Lambda {\n    uint256 public count;\n\n    function lambda() { count = 1; }\n}\n"
    );
}

#[test]
fn body_is_filled_in_before_the_state() {
    let mut generator = ContractGenerator::default();
    generator.process_lambda("count = 1;".to_string()).unwrap();
    assert_eq!(
        generator.lambda_source("//lambda_here", "//states_here"),
        "uint256 public count;\n"
    );
}

#[test]
fn gateway_source_is_filled_in() {
    let mut generator = ContractGenerator::default();
    generator.process_lambda("function lambda(bool b)".to_string()).unwrap();
    let expected = format!("A {} B", generator.lambda_apg_content());
    assert_eq!(generator.gateway_source("A //lambda_here B"), expected);
}

#[test]
fn project_paths() {
    assert_eq!(lambda_directory(1700000000, 42), "lambda_1700000000_42");
    assert_eq!(lambda_directory(0, 18446744073709551615), "lambda_0_18446744073709551615");
    assert_eq!(output_path("lambda_1_2"), "output/lambda_1_2");
    assert_eq!(lambda_file("output/x"), "output/x/src/Lambda.sol");
    assert_eq!(lambda_apg_file("output/x"), "output/x/src/LambdaAppGateway.sol");
    assert_eq!(lambda_test_file("output/x"), "output/x/test/LambdaTest.sol");
}
