use gaslite::gas::{gas_report_cells, gas_saved, parse_gas_report, parse_test_gas, FunctionGas};

#[test]
fn gas_report_parses_per_function_avg() {
    let report = "\
| src/Original.sol:RewardPool contract |                 |       |        |       |         |
| Function Name                        | min             | avg   | median | max   | # calls |
| distribute                           | 12000           | 23456 | 23456  | 34000 | 2       |
| stake                                | 40000           | 41000 | 41000  | 42000 | 1       |
| src/Optimized.sol:RewardPoolOptimized contract |       |       |        |       |         |
| Function Name                        | min             | avg   | median | max   | # calls |
| distribute                           | 8000            | 15000 | 15000  | 22000 | 2       |
| stake                                | 30000           | 31000 | 31000  | 32000 | 1       |";
    let out = parse_gas_report(report, "RewardPool", "RewardPoolOptimized");
    let dist = out.iter().find(|f| f.name == "distribute").unwrap();
    assert_eq!(dist.gas_original, Some(23456));
    assert_eq!(dist.gas_optimized, Some(15000));
    assert_eq!(dist.gas_saved, Some(8456));
    let stake = out.iter().find(|f| f.name == "stake").unwrap();
    assert_eq!(stake.gas_saved, Some(10000));
}

#[test]
fn gas_report_reads_every_table_style() {
    let cells = gas_report_cells("\u{2502} a \u{2506} 1 | 2 \u{2506}\u{2502}");
    assert_eq!(cells, vec!["a", "1", "2"]);
    assert!(gas_report_cells("|  |  |").is_empty());
}

#[test]
fn gas_report_keeps_one_row_per_function() {
    let report = "\
| src/Original.sol:A contract | | | | | |
| f | 1 | 10 | 1 | 1 | 1 |
| f | 1 | 20 | 1 | 1 | 1 |
| src/Other.sol:B contract | | | | | |
| f | 1 | 99 | 1 | 1 | 1 |
| src/Optimized.sol:AOptimized contract | | | | | |
| g | 1 | 1,234 | 1 | 1 | 1 |
| Deployment Cost | 1 | x | 1 | 1 | 1 |
| f | 1 | 5 | 1 | 1 |";
    let out = parse_gas_report(report, "A", "AOptimized");
    assert_eq!(out.len(), 2);
    assert_eq!(out[0].name, "f");
    assert_eq!(out[0].gas_original, Some(20));
    assert_eq!(out[0].gas_optimized, None);
    assert_eq!(out[0].gas_saved, None);
    assert_eq!(out[1].name, "g");
    assert_eq!(out[1].gas_optimized, Some(1234));
}

#[test]
fn test_gas_is_the_first_figure_of_the_test() {
    let out = "[FAIL] test_original() (gas: n/a)\n[PASS] test_original() (gas: 21000)\n[PASS] test_original() (gas: 5)";
    assert_eq!(parse_test_gas(out, "test_original"), Some(21000));
    assert_eq!(parse_test_gas(out, "test_optimized"), None);
    assert_eq!(parse_test_gas("test_x gas: 18446744073709551616", "test_x"), None);
    assert_eq!(parse_test_gas("test_x gas: 18446744073709551615)", "test_x"), Some(u64::MAX));
}

#[test]
fn savings_are_differences() {
    assert_eq!(gas_saved(Some(100), Some(60)), Some(40));
    assert_eq!(gas_saved(Some(60), Some(100)), Some(-40));
    assert_eq!(gas_saved(None, Some(1)), None);
    assert_eq!(gas_saved(Some(1), None), None);
    assert_eq!(
        gas_saved(Some(u64::MAX), Some(0)),
        Some((u64::MAX as i64).wrapping_sub(0))
    );
    assert_eq!(
        gas_saved(Some(0), Some(u64::MAX)),
        Some(0i64.wrapping_sub(u64::MAX as i64))
    );
}

#[test]
fn function_gas_starts_empty_and_clones() {
    let g = FunctionGas::default();
    assert!(g.name.is_empty() && g.gas_saved.is_none());
    let h = FunctionGas {
        name: "f".to_string(),
        gas_original: Some(3),
        gas_optimized: Some(1),
        gas_saved: Some(2),
    };
    let c = h.clone();
    assert_eq!(c.name, "f");
    assert_eq!((c.gas_original, c.gas_optimized, c.gas_saved), (Some(3), Some(1), Some(2)));
}
