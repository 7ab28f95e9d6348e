use gaslite::utils::strip_code_fences;

#[test]
fn an_answer_without_fences_is_trimmed() {
    assert_eq!(strip_code_fences("  contract C {}\n"), "contract C {}");
    assert_eq!(strip_code_fences(""), "");
}

#[test]
fn only_fenced_code_is_kept() {
    let s = "Here it is:\n```solidity\nfunction f() {}\n```\nand\n```yul\nadd(1, 2)\n```\ndone";
    assert_eq!(strip_code_fences(s), "function f() {}\nadd(1, 2)");
    assert_eq!(strip_code_fences("```\n  x\n```"), "x");
}

#[test]
fn an_empty_block_leaves_the_answer() {
    assert_eq!(strip_code_fences(" ```\n``` "), "```\n```");
}

#[test]
fn other_languages_do_not_open_a_block() {
    let s = "```json\n{}\n```\nrest\n```";
    // Only the closing marks count, so the block begins at the first of them.
    assert_eq!(strip_code_fences(s), "rest");
    assert_eq!(strip_code_fences("```json {}"), "```json {}");
}

#[test]
fn stripping_twice_is_stripping_once() {
    for s in [
        "",
        "  contract C {}\n",
        "```solidity\n\n  function f() {}\r\n\n```\nprose\n```yul\nadd(1, 2)  \n```",
        " ```\n``` ",
        "```json\n{}\n```\nrest ```\n```",
        "```\n \n\t\n```",
        "```\r\nx\r\r\n```\r\n",
    ] {
        let once = strip_code_fences(s);
        assert_eq!(strip_code_fences(&once), once);
        assert_eq!(once.trim(), once);
    }
    assert_eq!(strip_code_fences("```\r\n  x\r\ny  \r\n```\r\n"), "x\ny");
}
