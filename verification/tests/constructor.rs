use gaslite::constructor::{
    default_literal_for_type, extract_constructor_params, param_type, synthesize_constructor_args,
};

#[test]
fn ctor_args_none_when_no_constructor() {
    let src = "contract C { function f() public {} }";
    assert_eq!(synthesize_constructor_args(src), "");
}

#[test]
fn ctor_args_empty_constructor() {
    let src = "contract C { constructor() { } }";
    assert_eq!(synthesize_constructor_args(src), "");
}

#[test]
fn ctor_args_single_address() {
    let src = "contract C { constructor(address _token) { } }";
    assert_eq!(synthesize_constructor_args(src), "address(0)");
}

#[test]
fn ctor_args_mixed_primitives() {
    let src = "contract C { constructor(address _o, uint256 _r, bool _b, string memory _n) { } }";
    assert_eq!(
        synthesize_constructor_args(src),
        "address(0), 0, false, \"\""
    );
}

#[test]
fn ctor_args_array_and_payable_and_contract() {
    let src = "contract C { constructor(address[] memory xs, address payable to, IERC20 t) { } }";
    assert_eq!(
        synthesize_constructor_args(src),
        "new address[](0), payable(address(0)), IERC20(address(0))"
    );
}

#[test]
fn ctor_args_fixed_bytes() {
    let src = "contract C { constructor(bytes32 root) { } }";
    assert_eq!(synthesize_constructor_args(src), "bytes32(0)");
}

#[test]
fn ctor_keyword_in_identifier_is_ignored() {
    // No real constructor; a function whose name contains "constructor".
    let src = "contract C { function reconstructor() public {} }";
    assert_eq!(synthesize_constructor_args(src), "");
}

#[test]
fn ctor_params_tell_no_constructor_from_an_empty_one() {
    assert_eq!(extract_constructor_params("contract C { }"), None);
    assert_eq!(
        extract_constructor_params("contract C { constructor ( \n ) {} }"),
        Some(vec![])
    );
    // A list that is never closed is no list.
    assert_eq!(extract_constructor_params("constructor(uint a"), None);
}

#[test]
fn ctor_params_skip_mentions_of_the_keyword() {
    let src = "// the constructor is below\ncontract C { constructor\n (uint a) {} }";
    assert_eq!(
        extract_constructor_params(src),
        Some(vec!["uint".to_string()])
    );
}

#[test]
fn ctor_params_split_at_top_level_commas_only() {
    let src = "constructor(function(uint, uint) external f, uint[2] memory g) {}";
    assert_eq!(
        extract_constructor_params(src),
        Some(vec![
            "function(uint, uint) external".to_string(),
            "uint[2]".to_string(),
        ])
    );
}

#[test]
fn ctor_params_keep_a_comma_behind_an_unopened_bracket() {
    // The nesting goes below zero and never comes back to it.
    assert_eq!(
        extract_constructor_params("constructor(uint a> , bool b) {}"),
        Some(vec!["uint a> , bool".to_string()])
    );
}

#[test]
fn param_type_drops_location_and_name() {
    assert_eq!(param_type("address payable _to"), "address payable");
    assert_eq!(param_type("string memory"), "string");
    assert_eq!(param_type("uint256"), "uint256");
    assert_eq!(param_type("bytes calldata data"), "bytes");
    assert_eq!(param_type(""), "");
}

#[test]
fn default_literals_by_type() {
    assert_eq!(default_literal_for_type(" bytes "), "\"\"");
    assert_eq!(default_literal_for_type("int8"), "0");
    assert_eq!(default_literal_for_type("bytes4"), "bytes4(0)");
    assert_eq!(default_literal_for_type("bytesX"), "0");
    assert_eq!(default_literal_for_type("bytes99999999999"), "0");
    assert_eq!(default_literal_for_type("uint256[][]"), "new uint256[][](0)");
    assert_eq!(default_literal_for_type("Token"), "Token(address(0))");
    assert_eq!(default_literal_for_type("token"), "0");
    assert_eq!(default_literal_for_type(""), "0");
}

#[test]
fn ctor_params_ignore_comments_and_strings() {
    assert_eq!(
        extract_constructor_params("// constructor(uint a)\ncontract C { }"),
        None
    );
    assert_eq!(
        extract_constructor_params("/* constructor(uint a) */ contract C { }"),
        None
    );
    assert_eq!(
        extract_constructor_params("contract C { string s = \"constructor(uint a)\"; }"),
        None
    );
    assert_eq!(
        synthesize_constructor_args("// constructor(uint a)\ncontract C { }"),
        ""
    );
    let src = "// constructor(uint a)\ncontract C { constructor(bool b /* , uint c */) {} }";
    assert_eq!(
        extract_constructor_params(src),
        Some(vec!["bool".to_string()])
    );
    assert_eq!(synthesize_constructor_args(src), "false");
}

#[test]
fn param_type_keeps_the_last_word_of_a_type() {
    assert_eq!(param_type("address payable"), "address payable");
    assert_eq!(param_type("function(uint) external"), "function(uint) external");
    assert_eq!(
        param_type("function(uint) external view"),
        "function(uint) external view"
    );
    assert_eq!(param_type("function() internal pure f"), "function() internal pure");
    assert_eq!(
        param_type("function() external returns (bool)"),
        "function() external returns (bool)"
    );
    assert_eq!(
        synthesize_constructor_args("contract C { constructor(address payable) {} }"),
        "payable(address(0))"
    );
}
