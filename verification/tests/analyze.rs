use gaslite::analyze::{
    analyze_contract, analyze_units, build_slot_guide, detect_category_fallback, Part, PartHead,
    PartKind, Unit,
};

const SOURCE: &str = "pragma solidity ^0.8.0;\n\
struct Outside { uint z; }\n\
contract Token is Base.ERC20, Ownable {\n\
    mapping(address => uint) public balances;\n\
    mapping(address => mapping(address => uint)) public allowed;\n\
    uint256 public supply;\n\
    struct Lock { uint until; }\n\
    enum Kind { A, B }\n\
    event Sent(address to);\n\
    error Nope();\n\
    type Id is uint256;\n\
    modifier only() { _; }\n\
    constructor() {}\n\
    function caf\u{e9}() public returns (uint) { return 1; }\n\
    function abstractOne() public virtual;\n\
    receive() external payable {}\n\
    function send(address to) external only { emit Sent(to); }\n\
}\n";

#[test]
fn functions_are_extracted_exactly() {
    let sk = analyze_contract(SOURCE);
    let names: Vec<&str> = sk.functions.iter().map(|f| f.name.as_str()).collect();
    assert_eq!(names, vec!["caf\u{e9}", "send"]);
    for f in &sk.functions {
        assert_eq!(&SOURCE[f.start..f.end], f.source);
    }
    assert_eq!(
        sk.functions[1].source,
        "function send(address to) external only { emit Sent(to); }"
    );
}

#[test]
fn headers_are_cut_at_the_body() {
    let sk = analyze_contract(SOURCE);
    assert_eq!(sk.signatures.len(), 2);
    assert_eq!(
        sk.signatures[0].signature,
        "function caf\u{e9}() public returns (uint)"
    );
    assert_eq!(sk.signatures[1].name, "send");
    assert_eq!(sk.signatures[1].size, sk.functions[1].source.len());
}

#[test]
fn the_category_comes_from_the_bases() {
    assert_eq!(analyze_contract(SOURCE).category, Some("erc20"));
    assert_eq!(analyze_contract("contract A is B {}").category, None);
    assert_eq!(
        analyze_contract("contract A is X, ERC721A, ERC20 {}").category,
        Some("erc721")
    );
    assert_eq!(
        analyze_contract("contract A {} contract B is ERC1155 {}").category,
        Some("erc1155")
    );
    assert_eq!(analyze_contract("contract A is IERC2981 {}").category, Some("erc2981"));
}

#[test]
fn state_and_declarations_are_listed() {
    let sk = analyze_contract(SOURCE);
    assert_eq!(
        sk.storage_layout,
        "mapping(address => uint) public balances\n\
         mapping(address => mapping(address => uint)) public allowed\n\
         uint256 public supply"
    );
    assert_eq!(
        sk.file_decls,
        "struct Outside { uint z; }\n\nstruct Lock { uint until; }\n\nenum Kind { A, B }\n\nevent Sent(address to)\n\n\
         error Nope()\n\ntype Id is uint256\n\nmodifier only() { _; }"
    );
}

#[test]
fn the_slot_guide_goes_by_mapping_depth() {
    let sk = analyze_contract(SOURCE);
    assert_eq!(
        sk.slot_guide,
        "EXACT STORAGE SLOTS FOR THIS CONTRACT \u{2014} derive every slot with these recipes VERBATIM (use the `.slot` accessor; ignore any slot scheme from the retrieved patterns):\n\
         - balances[k]: mstore(0x00, k); mstore(0x20, balances.slot); let s := keccak256(0x00, 0x40)\n\
         - allowed[k1][k2]: mstore(0x00, k1); mstore(0x20, allowed.slot); let inner := keccak256(0x00, 0x40); mstore(0x00, k2); mstore(0x20, inner); let s := keccak256(0x00, 0x40)\n\
         - supply (value type): read sload(supply.slot), write sstore(supply.slot, v)\n"
    );
    let deep = build_slot_guide(&vec![(
        "d".to_string(),
        "mapping(a => mapping(b => mapping(c => d)))".to_string(),
    )]);
    assert!(deep.ends_with("- d: deep mapping \u{2014} derive each level as keccak256(key ++ parentSlot)\n"));
    assert_eq!(build_slot_guide(&vec![]), "");
}

#[test]
fn a_source_that_does_not_parse_has_no_functions() {
    let sk = analyze_contract("contract A is ERC721 { function f( }");
    assert!(sk.functions.is_empty() && sk.signatures.is_empty());
    assert_eq!(sk.category, Some("erc721"));
    assert_eq!(sk.storage_layout, "");
    assert_eq!(sk.file_decls, "");
    assert_eq!(sk.slot_guide, "");
}

#[test]
fn the_fallback_guesses_from_the_text() {
    assert_eq!(detect_category_fallback("contract A IS ERC1155 {"), Some("erc1155"));
    assert_eq!(detect_category_fallback("x : ERC2981"), Some("erc2981"));
    assert_eq!(detect_category_fallback("is erc20 is erc721"), Some("erc721"));
    assert_eq!(detect_category_fallback("is erc20"), Some("erc20"));
    assert_eq!(detect_category_fallback("erc20"), None);
}

#[test]
fn the_skeleton_is_rendered_without_bodies() {
    let sk = analyze_contract("contract A { uint x; error E(); function f() public { x = 1; } }");
    assert_eq!(
        sk.render(),
        "FUNCTIONS (name \u{2014} body bytes):\n\
         - f [30 bytes]: function f() public\n\
         \nSTATE VARIABLES:\nuint x\n\
         \nFILE-LEVEL DECLARATIONS:\nerror E()\n"
    );
    let bare = analyze_contract("contract A { function f() public { } }");
    assert_eq!(
        bare.render(),
        "FUNCTIONS (name \u{2014} body bytes):\n- f [23 bytes]: function f() public\n"
    );
}

fn part(kind: PartKind, name: Option<&str>, has_body: bool, span: Option<(usize, usize)>) -> Part {
    Part {
        head: PartHead {
            kind,
            name: name.map(|n| n.to_string()),
            has_body,
        },
        span,
    }
}

#[test]
fn parts_are_sorted_by_what_they_are() {
    let source = "0123456789 \u{e9}";
    let contract = Unit {
        bases: vec![vec!["Lib".to_string(), "MyErc1155".to_string()]],
        parts: vec![
            part(PartKind::Variable, Some("v"), false, Some((0, 2))),
            part(PartKind::Variable, None, false, Some((2, 4))),
            part(PartKind::Function("function".to_string()), Some("f"), true, Some((4, 6))),
            part(PartKind::Function("function".to_string()), Some("g"), false, Some((4, 6))),
            part(PartKind::Function("function".to_string()), None, true, Some((4, 6))),
            part(PartKind::Function("constructor".to_string()), Some("c"), true, Some((4, 6))),
            part(PartKind::Function("modifier".to_string()), Some("m"), true, Some((6, 8))),
            part(PartKind::Struct, None, false, Some((8, 11))),
            // Not on a character boundary, and out of bounds: left out.
            part(PartKind::Struct, None, false, Some((11, 12))),
            part(PartKind::Enum, None, false, Some((5, 99))),
            part(PartKind::Event, None, false, Some((6, 5))),
            part(PartKind::Error, None, false, None),
            part(PartKind::Other, None, false, Some((0, 1))),
        ],
    };
    let sk = analyze_units(source, &vec![contract]);
    assert_eq!(sk.category, Some("erc1155"));
    assert_eq!(sk.functions.len(), 1);
    assert_eq!(sk.functions[0].source, "45");
    assert_eq!((sk.functions[0].start, sk.functions[0].end), (4, 6));
    assert_eq!(sk.signatures[0].size, 2);
    assert_eq!(sk.storage_layout, "01\n23");
    assert_eq!(sk.file_decls, "67\n\n89");
    assert!(sk.slot_guide.contains("- v (value type)"));
}

fn recipe(declaration: &str) -> String {
    let guide = build_slot_guide(&vec![("b".to_string(), declaration.to_string())]);
    guide.lines().last().unwrap().to_string()
}

#[test]
fn the_slot_guide_reads_mappings_with_blanks() {
    let one = "- b[k]: mstore(0x00, k); mstore(0x20, b.slot); let s := keccak256(0x00, 0x40)";
    let two = "- b[k1][k2]: mstore(0x00, k1); mstore(0x20, b.slot); let inner := keccak256(0x00, 0x40); mstore(0x00, k2); mstore(0x20, inner); let s := keccak256(0x00, 0x40)";
    let value = "- b (value type): read sload(b.slot), write sstore(b.slot, v)";
    assert_eq!(recipe("mapping (address => uint256) b"), one);
    assert_eq!(recipe("mapping\n\t(address => uint256) b"), one);
    assert_eq!(recipe("mapping (address => mapping  (uint => bool)) b"), two);
    assert_eq!(recipe("mapping(address => mapping(uint => bool)) b"), two);
    // Neither a comment nor a longer word is a mapping.
    assert_eq!(recipe("uint /* no mapping(a => b) */ b"), value);
    assert_eq!(recipe("uint remapping (b)"), value);
    let guide = build_slot_guide(&vec![(
        "b".to_string(),
        "mapping (address => uint256) b".to_string(),
    )]);
    assert!(guide.ends_with(
        "- b[k]: mstore(0x00, k); mstore(0x20, b.slot); let s := keccak256(0x00, 0x40)\n"
    ));
}

#[test]
fn the_header_ends_at_the_brace_of_the_body() {
    let header = |f: &str| {
        let sk = analyze_contract(&format!("contract C {{ {} }}", f));
        sk.signatures[0].signature.clone()
    };
    assert_eq!(
        header("function f() public /* { */ view { g(); }"),
        "function f() public /* { */ view"
    );
    assert_eq!(
        header("function f() public // {\n view { g(); }"),
        "function f() public // {\n view"
    );
    assert_eq!(
        header("function f() public only(g({a: 1})) { g(); }"),
        "function f() public only(g({a: 1}))"
    );
}

#[test]
fn definitions_outside_every_contract_are_listed() {
    let sk = analyze_contract(
        "struct S { uint a; }\nenum E { A }\nerror Bad(uint code);\ntype Id is uint256;\n\
         contract C { error Inner(); }\nevent Late(uint x);\nuint constant K = 1;\n",
    );
    assert_eq!(
        sk.file_decls,
        "struct S { uint a; }\n\nenum E { A }\n\nerror Bad(uint code)\n\ntype Id is uint256\n\n\
         error Inner()\n\nevent Late(uint x)"
    );
    assert_eq!(sk.storage_layout, "");
}
