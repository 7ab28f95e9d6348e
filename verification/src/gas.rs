//! Gas figures: what `forge test` prints, and what a rewrite saves.

use crate::number::{self, read_u64};
use crate::split::{self, lines};
use crate::text::{self, chars, contains, ends_with, same, trim};
use vstd::prelude::*;

verus! {

broadcast use vstd::seq::group_seq_axioms;

// ── savings ──────────────────────────────────────────────────────────────────

/// What is saved going from `before` to `after` gas: the difference, as a signed
/// 64-bit number in two's complement.
pub open spec fn gas_delta(before: int, after: int) -> int {
    let d = before - after;
    if d > i64::MAX {
        d - 0x1_0000_0000_0000_0000
    } else if d < i64::MIN {
        d + 0x1_0000_0000_0000_0000
    } else {
        d
    }
}

/// An optional figure as a number.
pub open spec fn figure(g: Option<u64>) -> Option<nat> {
    match g {
        Some(v) => Some(v as nat),
        None => None,
    }
}

/// An optional saving as a number.
pub open spec fn signed_figure(g: Option<i64>) -> Option<int> {
    match g {
        Some(v) => Some(v as int),
        None => None,
    }
}

/// The saving, where both figures are known.
pub open spec fn saving(before: Option<nat>, after: Option<nat>) -> Option<int> {
    match (before, after) {
        (Some(b), Some(a)) => Some(gas_delta(b as int, a as int)),
        _ => None,
    }
}

/// Computes the saving, where both figures are known.
pub fn gas_saved(before: Option<u64>, after: Option<u64>) -> (r: Option<i64>)
    ensures
        signed_figure(r) == saving(figure(before), figure(after)),
{
    match (before, after) {
        (Some(b), Some(a)) => {
            let d: i128 = (b as i128) - (a as i128);
            let max: i128 = i64::MAX as i128;
            let min: i128 = i64::MIN as i128;
            if d > max {
                Some((d - 0x1_0000_0000_0000_0000) as i64)
            } else if d < min {
                Some((d + 0x1_0000_0000_0000_0000) as i64)
            } else {
                Some(d as i64)
            }
        },
        _ => None,
    }
}

/// A rewrite that costs less saves a positive amount, and the amount is exact,
/// for all figures a chain can produce.
pub proof fn law_saving_is_the_difference(before: nat, after: nat)
    requires
        before < 0x8000_0000_0000_0000,
        after < 0x8000_0000_0000_0000,
    ensures
        saving(Some(before), Some(after)) == Some(before - after),
        saving(Some(before), Some(after))->0 > 0 <==> after < before,
{
}

// ── test output ──────────────────────────────────────────────────────────────

/// The gas figure of a test's result line: what follows `gas:`, up to the closing
/// parenthesis. Only a line that names the test counts.
pub open spec fn line_gas(line: Seq<char>, test: Seq<char>) -> Option<nat> {
    let pieces = split::pieces_of(line, "gas:"@);
    if text::holds(line, test) && text::holds(line, "gas:"@) && pieces.len() > 1 {
        let g = text::trimmed(text::without_trailing(text::trimmed(pieces[1]), ')'));
        number::number_up_to(g, u64::MAX as nat)
    } else {
        None
    }
}

/// The figure of the first line that has one for the test.
pub open spec fn first_gas(lines: Seq<Seq<char>>, test: Seq<char>) -> Option<nat>
    decreases lines.len(),
{
    if lines.len() == 0 {
        None
    } else {
        match line_gas(lines[0], test) {
            Some(g) => Some(g),
            None => first_gas(lines.skip(1), test),
        }
    }
}

/// Reads the gas figure of one test's result line.
fn read_line_gas(line: &str, test: &str) -> (r: Option<u64>)
    ensures
        figure(r) == line_gas(line@, test@),
{
    proof {
        reveal_strlit("gas:");
    }
    if !contains(line, test) || !contains(line, "gas:") {
        return None;
    }
    let pieces = split::split(line, "gas:");
    if pieces.len() < 2 {
        return None;
    }
    let piece = trim(pieces[1].as_str());
    let cut = text::trim_end_of(piece.as_str(), ')');
    let digits = trim(cut.as_str());
    read_u64(digits.as_str())
}

/// The gas that a test used, from the output of `forge test`: the first result
/// line that names the test and carries a figure.
pub fn parse_test_gas(output: &str, fn_suffix: &str) -> (r: Option<u64>)
    ensures
        figure(r) == first_gas(split::lines_of(output@), fn_suffix@),
{
    let all = lines(output);
    let mut i: usize = 0;
    let ghost ls = text::views(all@);
    proof {
        assert(ls.skip(0) =~= ls);
    }
    while i < all.len()
        invariant
            i <= all@.len(),
            ls == text::views(all@),
            ls == split::lines_of(output@),
            first_gas(ls.skip(i as int), fn_suffix@) == first_gas(ls, fn_suffix@),
        decreases all.len() - i,
    {
        proof {
            assert(ls.skip(i as int).skip(1) =~= ls.skip(i + 1));
        }
        let g = read_line_gas(all[i].as_str(), fn_suffix);
        if g.is_some() {
            return g;
        }
        i += 1;
    }
    None
}

// ── gas report ───────────────────────────────────────────────────────────────

/// Real per-function runtime gas, original vs optimized, parsed from forge's
/// `--gas-report` (avg over the differential test calls; both instances are
/// exercised with identical arguments, so the comparison is apples-to-apples).
#[derive(Debug)]
pub struct FunctionGas {
    pub name: String,
    pub gas_original: Option<u64>,
    pub gas_optimized: Option<u64>,
    pub gas_saved: Option<i64>,
}

impl Default for FunctionGas {
    fn default() -> (r: Self)
        ensures
            r.name@.len() == 0,
            r.gas_original is None,
            r.gas_optimized is None,
            r.gas_saved is None,
    {
        FunctionGas {
            name: String::new(),
            gas_original: None,
            gas_optimized: None,
            gas_saved: None,
        }
    }
}

/// One function's figures.
pub struct GasRow {
    pub name: Seq<char>,
    pub original: Option<nat>,
    pub optimized: Option<nat>,
}

impl FunctionGas {
    /// The figures of both contracts.
    pub open spec fn row(self) -> GasRow {
        GasRow {
            name: self.name@,
            original: figure(self.gas_original),
            optimized: figure(self.gas_optimized),
        }
    }

    /// The saving is that of the two figures.
    pub open spec fn consistent(self) -> bool {
        signed_figure(self.gas_saved) == saving(
            figure(self.gas_original),
            figure(self.gas_optimized),
        )
    }
}

impl Clone for FunctionGas {
    fn clone(&self) -> (r: Self)
        ensures
            r.row() == self.row(),
            r.gas_saved == self.gas_saved,
    {
        FunctionGas {
            name: self.name.clone(),
            gas_original: self.gas_original,
            gas_optimized: self.gas_optimized,
            gas_saved: self.gas_saved,
        }
    }
}

/// The figures of each entry.
pub open spec fn rows(list: Seq<FunctionGas>) -> Seq<GasRow> {
    Seq::new(list.len(), |i: int| list[i].row())
}

/// The saving of each entry is that of its figures.
pub open spec fn all_consistent(list: Seq<FunctionGas>) -> bool {
    forall|i: int| 0 <= i < list.len() ==> (#[trigger] list[i]).consistent()
}

/// A vertical table rule of any style.
pub open spec fn is_rule(c: char) -> bool {
    c == '|' || c == '\u{2506}' || c == '\u{2502}'
}

/// The line with every vertical rule drawn as `|`.
pub open spec fn plain_rules(line: Seq<char>) -> Seq<char> {
    line.map_values(
        |c: char|
            if is_rule(c) {
                '|'
            } else {
                c
            },
    )
}

/// The pieces, trimmed, without the blank ones.
pub open spec fn filled(pieces: Seq<Seq<char>>) -> Seq<Seq<char>>
    decreases pieces.len(),
{
    if pieces.len() == 0 {
        seq![]
    } else {
        let t = text::trimmed(pieces.last());
        if t.len() > 0 {
            filled(pieces.drop_last()).push(t)
        } else {
            filled(pieces.drop_last())
        }
    }
}

/// The cells of a table line.
pub open spec fn cells_of(line: Seq<char>) -> Seq<Seq<char>> {
    filled(split::pieces_of(plain_rules(line), "|"@))
}

/// A cell that names the contract of the section that follows.
pub open spec fn is_header(cell: Seq<char>) -> bool {
    text::holds(cell, ".sol:"@) && text::has_suffix(cell, "contract"@)
}

/// The contract that a header cell names.
pub open spec fn header_name(cell: Seq<char>) -> Seq<char> {
    text::trimmed(text::without_suffixes(split::pieces_of(cell, ":"@).last(), "contract"@))
}

/// The contract named by the first header cell.
pub open spec fn header_of(cells: Seq<Seq<char>>) -> Option<Seq<char>>
    decreases cells.len(),
{
    if cells.len() == 0 {
        None
    } else if is_header(cells[0]) {
        Some(header_name(cells[0]))
    } else {
        header_of(cells.skip(1))
    }
}

/// The number in a statistics cell; commas group digits.
pub open spec fn stat(cell: Seq<char>) -> Option<nat> {
    number::number_up_to(split::without_char(cell, ','), u64::MAX as nat)
}

/// A function row: a name, and numbers for min, avg, median and max, with at
/// least one more cell behind them.
pub open spec fn is_function_row(cells: Seq<Seq<char>>) -> bool {
    cells.len() >= 6 && !text::same_ignoring_ascii_case(cells[0], "Function Name"@) && (stat(
        cells[1],
    ) is Some && stat(cells[2]) is Some && stat(cells[3]) is Some && stat(cells[4]) is Some)
}

/// The first row with the given name.
pub open spec fn row_index(rows: Seq<GasRow>, name: Seq<char>, from: int) -> Option<int>
    decreases rows.len() - from,
{
    if from < 0 || from >= rows.len() {
        None
    } else if rows[from].name == name {
        Some(from)
    } else {
        row_index(rows, name, from + 1)
    }
}

/// `rows` with a figure recorded for the function: in its row, or in a new row at
/// the end.
pub open spec fn recorded(rows: Seq<GasRow>, name: Seq<char>, original: bool, gas: nat) -> Seq<
    GasRow,
> {
    match row_index(rows, name, 0) {
        Some(i) => rows.update(
            i,
            GasRow {
                name: name,
                original: if original {
                    Some(gas)
                } else {
                    rows[i].original
                },
                optimized: if original {
                    rows[i].optimized
                } else {
                    Some(gas)
                },
            },
        ),
        None => rows.push(
            GasRow {
                name: name,
                original: if original {
                    Some(gas)
                } else {
                    None
                },
                optimized: if original {
                    None
                } else {
                    Some(gas)
                },
            },
        ),
    }
}

/// How far the report has been read: the contract of the section, and the rows.
pub struct ReportState {
    pub current: Option<Seq<char>>,
    pub rows: Seq<GasRow>,
}

/// One more line of the report.
pub open spec fn report_step(
    state: ReportState,
    line: Seq<char>,
    orig_name: Seq<char>,
    opt_name: Seq<char>,
) -> ReportState {
    let cells = cells_of(line);
    match header_of(cells) {
        Some(name) => ReportState { current: Some(name), rows: state.rows },
        None => if is_function_row(cells) && state.current == Some(orig_name) {
            ReportState {
                current: state.current,
                rows: recorded(state.rows, cells[0], true, stat(cells[2])->0),
            }
        } else if is_function_row(cells) && state.current == Some(opt_name) {
            ReportState {
                current: state.current,
                rows: recorded(state.rows, cells[0], false, stat(cells[2])->0),
            }
        } else {
            state
        },
    }
}

/// The report read line by line.
pub open spec fn report(
    lines: Seq<Seq<char>>,
    orig_name: Seq<char>,
    opt_name: Seq<char>,
) -> ReportState
    decreases lines.len(),
{
    if lines.len() == 0 {
        ReportState { current: None, rows: seq![] }
    } else {
        report_step(
            report(lines.drop_last(), orig_name, opt_name),
            lines.last(),
            orig_name,
            opt_name,
        )
    }
}

/// Draws every vertical rule as `|`.
fn unify_rules(line: &str) -> (r: String)
    ensures
        r@ == plain_rules(line@),
{
    let v = chars(line);
    let mut out = String::new();
    let mut i: usize = 0;
    proof {
        assert(out@ =~= plain_rules(v@).take(0));
    }
    while i < v.len()
        invariant
            i <= v@.len(),
            out@ == plain_rules(v@).take(i as int),
        decreases v.len() - i,
    {
        let c = v[i];
        if c == '|' || c == '\u{2506}' || c == '\u{2502}' {
            out.push('|');
        } else {
            out.push(c);
        }
        proof {
            assert(plain_rules(v@).take(i as int).push(plain_rules(v@)[i as int]) =~= plain_rules(
                v@,
            ).take(i + 1));
        }
        i += 1;
    }
    proof {
        assert(plain_rules(v@).take(v@.len() as int) =~= plain_rules(v@));
    }
    out
}

/// Split one gas-report line into trimmed, non-empty cells. Foundry has shipped
/// several table styles (old box-drawing rules, newer `|`/`+`); normalizing the
/// vertical separators to `|` makes the parser version-tolerant.
pub fn gas_report_cells(line: &str) -> (r: Vec<String>)
    ensures
        text::views(r@) == cells_of(line@),
{
    let plain = unify_rules(line);
    proof {
        reveal_strlit("|");
    }
    let pieces = split::split(plain.as_str(), "|");
    let mut out: Vec<String> = Vec::new();
    let mut i: usize = 0;
    let ghost ps = text::views(pieces@);
    proof {
        assert(text::views(out@) =~= filled(ps.take(0)));
    }
    while i < pieces.len()
        invariant
            i <= pieces@.len(),
            ps == text::views(pieces@),
            text::views(out@) == filled(ps.take(i as int)),
        decreases pieces.len() - i,
    {
        let t = trim(pieces[i].as_str());
        proof {
            assert(ps.take(i + 1).drop_last() =~= ps.take(i as int));
            text::lemma_views_push(out@, t);
        }
        if !t.as_str().is_empty() {
            out.push(t);
        }
        i += 1;
    }
    proof {
        assert(ps.take(ps.len() as int) =~= ps);
    }
    out
}

/// The contract named by the first header cell.
fn find_header(cells: &Vec<String>) -> (r: Option<String>)
    ensures
        text::opt_view(r) == header_of(text::views(cells@)),
{
    let ghost cs = text::views(cells@);
    let mut i: usize = 0;
    proof {
        assert(cs.skip(0) =~= cs);
        reveal_strlit(":");
    }
    while i < cells.len()
        invariant
            i <= cells@.len(),
            cs == text::views(cells@),
            ":"@.len() == 1,
            header_of(cs.skip(i as int)) == header_of(cs),
        decreases cells.len() - i,
    {
        let cell = cells[i].as_str();
        proof {
            assert(cs.skip(i as int).skip(1) =~= cs.skip(i + 1));
        }
        if contains(cell, ".sol:") && ends_with(cell, "contract") {
            let pieces = split::split(cell, ":");
            let last = pieces[pieces.len() - 1].as_str();
            proof {
                assert(text::views(pieces@).last() == last@);
            }
            let bare = text::trim_suffixes(last, "contract");
            return Some(trim(bare.as_str()));
        }
        i += 1;
    }
    None
}

/// Reads a statistics cell.
fn read_stat(cell: &str) -> (r: Option<u64>)
    ensures
        figure(r) == stat(cell@),
{
    let digits = split::remove_char(cell, ',');
    read_u64(digits.as_str())
}

/// The average of a function row.
fn row_average(cells: &Vec<String>) -> (r: Option<u64>)
    ensures
        match r {
            Some(avg) => is_function_row(text::views(cells@)) && stat(text::views(cells@)[2])
                == Some(avg as nat),
            None => !is_function_row(text::views(cells@)),
        },
        r is Some ==> cells@.len() >= 6,
{
    if cells.len() < 6 || text::same_ascii_case_insensitive(cells[0].as_str(), "Function Name") {
        return None;
    }
    let ghost cs = text::views(cells@);
    proof {
        assert(cs[0] == cells@[0]@ && cs[1] == cells@[1]@ && cs[2] == cells@[2]@ && cs[3]
            == cells@[3]@ && cs[4] == cells@[4]@);
    }
    let min = read_stat(cells[1].as_str());
    let avg = read_stat(cells[2].as_str());
    let median = read_stat(cells[3].as_str());
    let max = read_stat(cells[4].as_str());
    if min.is_some() && median.is_some() && max.is_some() {
        avg
    } else {
        None
    }
}

/// Records one figure.
fn record(table: &mut Vec<FunctionGas>, name: &str, original: bool, gas: u64)
    requires
        all_consistent(old(table)@),
    ensures
        rows(final(table)@) == recorded(rows(old(table)@), name@, original, gas as nat),
        all_consistent(final(table)@),
{
    let ghost before = rows(table@);
    let mut i: usize = 0;
    while i < table.len()
        invariant
            i <= table@.len(),
            table@ == old(table)@,
            before == rows(table@),
            all_consistent(table@),
            row_index(before, name@, 0) == row_index(before, name@, i as int),
        decreases table.len() - i,
    {
        if same(table[i].name.as_str(), name) {
            let go: Option<u64> = if original {
                Some(gas)
            } else {
                table[i].gas_original
            };
            let gp: Option<u64> = if original {
                table[i].gas_optimized
            } else {
                Some(gas)
            };
            let entry = FunctionGas {
                name: name.to_owned(),
                gas_original: go,
                gas_optimized: gp,
                gas_saved: gas_saved(go, gp),
            };
            let ghost row = entry.row();
            table.set(i, entry);
            proof {
                assert(rows(table@) =~= before.update(i as int, row));
            }
            return;
        }
        i += 1;
    }
    let go: Option<u64> = if original {
        Some(gas)
    } else {
        None
    };
    let gp: Option<u64> = if original {
        None
    } else {
        Some(gas)
    };
    let entry = FunctionGas {
        name: name.to_owned(),
        gas_original: go,
        gas_optimized: gp,
        gas_saved: gas_saved(go, gp),
    };
    let ghost row = entry.row();
    table.push(entry);
    proof {
        assert(rows(table@) =~= before.push(row));
    }
}

/// Parse `forge test --gas-report` into per-function avg gas for the original and
/// optimized contracts, paired by function name. Functions appear only if the
/// differential tests called them; getters called for assertions are included too;
/// the caller filters to the real optimization targets.
pub fn parse_gas_report(output: &str, orig_name: &str, opt_name: &str) -> (r: Vec<FunctionGas>)
    ensures
        rows(r@) == report(split::lines_of(output@), orig_name@, opt_name@).rows,
        all_consistent(r@),
{
    let all = lines(output);
    let ghost ls = text::views(all@);
    let mut table: Vec<FunctionGas> = Vec::new();
    // Which contract's section we are currently inside (matched against the two
    // names we care about; other contracts are ignored).
    let mut current: Option<String> = None;
    let mut i: usize = 0;
    proof {
        assert(rows(table@) =~= report(ls.take(0), orig_name@, opt_name@).rows);
    }
    while i < all.len()
        invariant
            i <= all@.len(),
            ls == text::views(all@),
            ls == split::lines_of(output@),
            text::opt_view(current) == report(ls.take(i as int), orig_name@, opt_name@).current,
            rows(table@) == report(ls.take(i as int), orig_name@, opt_name@).rows,
            all_consistent(table@),
        decreases all.len() - i,
    {
        proof {
            assert(ls.take(i + 1).drop_last() =~= ls.take(i as int));
            assert(ls.take(i + 1).last() == all@[i as int]@);
        }
        let cells = gas_report_cells(all[i].as_str());
        // Contract header row: a cell like "src/Original.sol:RewardPool contract".
        match find_header(&cells) {
            Some(name) => {
                current = Some(name);
            },
            None => {
                // Function row: [name, min, avg, median, max, #calls]. The four stat
                // columns are numeric, so headers/borders/deployment rows are skipped.
                if let Some(avg) = row_average(&cells) {
                    let in_orig = match &current {
                        Some(c) => same(c.as_str(), orig_name),
                        None => false,
                    };
                    let in_opt = match &current {
                        Some(c) => same(c.as_str(), opt_name),
                        None => false,
                    };
                    proof {
                        assert(text::views(cells@)[0] == cells@[0]@);
                    }
                    if in_orig {
                        record(&mut table, cells[0].as_str(), true, avg);
                    } else if in_opt {
                        record(&mut table, cells[0].as_str(), false, avg);
                    }
                }
            },
        }
        i += 1;
    }
    proof {
        assert(ls.take(ls.len() as int) =~= ls);
    }
    table
}

/// No two rows bear the same name.
pub open spec fn distinct_names(rows: Seq<GasRow>) -> bool {
    forall|i: int, j: int|
        0 <= i < j < rows.len() ==> (#[trigger] rows[i]).name != (#[trigger] rows[j]).name
}

proof fn lemma_row_index(rows: Seq<GasRow>, name: Seq<char>, from: int)
    requires
        0 <= from,
    ensures
        match row_index(rows, name, from) {
            Some(i) => from <= i < rows.len() && rows[i].name == name,
            None => forall|k: int| from <= k < rows.len() ==> (#[trigger] rows[k]).name != name,
        },
    decreases rows.len() - from,
{
    if from < rows.len() && rows[from].name != name {
        lemma_row_index(rows, name, from + 1);
    }
}

/// A gas report gives each function one row, in which the figures of the two
/// contracts stand side by side.
pub proof fn law_one_row_per_function(
    lines: Seq<Seq<char>>,
    orig_name: Seq<char>,
    opt_name: Seq<char>,
)
    ensures
        distinct_names(report(lines, orig_name, opt_name).rows),
    decreases lines.len(),
{
    if lines.len() > 0 {
        law_one_row_per_function(lines.drop_last(), orig_name, opt_name);
        let rows = report(lines.drop_last(), orig_name, opt_name).rows;
        let name = cells_of(lines.last())[0];
        lemma_row_index(rows, name, 0);
    }
}

// ── laws on forge's output ───────────────────────────────────────────────────

proof fn lemma_figure_cut(n: nat)
    ensures
        text::trimmed(
            text::without_trailing(text::trimmed(" "@ + number::decimal(n) + ")"@), ')'),
        ) == number::decimal(n),
{
    reveal_strlit(" ");
    reveal_strlit(")");
    let d = number::decimal(n);
    number::lemma_decimal_reads_back(n);
    let s = " "@ + d + ")"@;
    assert(text::is_space(' '));
    assert(s.skip(1) =~= d + ")"@);
    let t = d + ")"@;
    assert(text::is_ascii_number(d[0]));
    assert(text::is_ascii_number(d[d.len() - 1]));
    assert(t[0] == d[0]);
    assert(text::trimmed_start(s) == text::trimmed_start(t));
    assert(text::trimmed_start(t) == t);
    assert(t.last() == ')');
    assert(!text::is_space(')'));
    assert(text::trimmed(s) == t);
    assert(t.drop_last() =~= d);
    assert(d.last() != ')');
    assert(text::without_trailing(t, ')') == text::without_trailing(d, ')'));
    assert(text::without_trailing(d, ')') == d);
    assert(text::trimmed_start(d) == d);
    assert(text::trimmed(d) == d);
}

/// The figure of a result line is read as it is written: behind `gas: `, up to the
/// closing parenthesis, for a line that names the test before it.
pub proof fn law_gas_figures_are_read(before: Seq<char>, test: Seq<char>, n: nat)
    requires
        text::holds(before, test),
        !text::holds(before, "gas:"@),
        n <= u64::MAX,
    ensures
        line_gas(before + "gas:"@ + (" "@ + number::decimal(n) + ")"@), test) == Some(n),
{
    let d = number::decimal(n);
    let rest = " "@ + d + ")"@;
    let sep = "gas:"@;
    let line = before + sep + rest;
    number::law_decimal_reads_back(n as int);
    lemma_figure_cut(n);
    text::lemma_goes_on(before, sep, test);
    text::lemma_goes_on(before + sep, rest, test);
    text::lemma_put_between(before, sep, rest);
    assert(sep.len() == 4 && sep[0] == 'g' && sep[1] != 'g' && sep[2] != 'g' && sep[3] != 'g') by {
        reveal_strlit("gas:");
    }
    assert forall|k: int| 0 <= k < before.len() implies !text::occurs_at(line, sep, k) by {
        if text::occurs_at(line, sep, k) {
            let m = before.len();
            if k + 4 <= m {
                assert(before.subrange(k, k + 4) =~= line.subrange(k, k + 4));
                assert(text::occurs_at(before, sep, k));
            } else {
                assert(line.subrange(k, k + 4)[m - k] == line[m as int]);
                assert(line[m as int] == sep[0]);
            }
        }
    }
    split::law_split_at_the_separator(before, sep, rest);
    lemma_figure_holds_no_mark(n);
    split::law_no_separator_is_one_piece(rest, sep);
    assert(split::pieces_of(line, sep) == seq![before] + seq![rest]);
    assert((seq![before] + seq![rest])[1] == rest);
}

proof fn lemma_figure_holds_no_mark(n: nat)
    ensures
        !text::holds(" "@ + number::decimal(n) + ")"@, "gas:"@),
{
    let d = number::decimal(n);
    let rest = " "@ + d + ")"@;
    number::lemma_decimal_reads_back(n);
    reveal_strlit("gas:");
    reveal_strlit(" ");
    reveal_strlit(")");
    assert forall|k: int| !text::occurs_at(rest, "gas:"@, k) by {
        if text::occurs_at(rest, "gas:"@, k) {
            assert(rest.subrange(k, k + 4)[0] == rest[k]);
            if 0 < k < rest.len() - 1 {
                assert(rest[k] == d[k - 1]);
                assert(text::is_ascii_number(d[k - 1]));
            }
        }
    }
}

/// The gas of a test is that of the first line that names it, and lines that do not
/// name it never count.
pub proof fn law_the_first_line_of_the_test_counts(
    lines: Seq<Seq<char>>,
    test: Seq<char>,
    k: int,
)
    ensures
        0 <= k < lines.len() && line_gas(lines[k], test) is Some && (forall|j: int|
            0 <= j < k ==> !text::holds(#[trigger] lines[j], test)) ==> first_gas(lines, test)
            == line_gas(lines[k], test),
        (forall|j: int| 0 <= j < lines.len() ==> !text::holds(#[trigger] lines[j], test))
            ==> first_gas(lines, test) is None,
    decreases lines.len(),
{
    if lines.len() > 0 {
        let rest = lines.skip(1);
        law_the_first_line_of_the_test_counts(rest, test, k - 1);
        if !text::holds(lines[0], test) {
            assert(forall|j: int| 0 <= j < rest.len() ==> rest[j] == lines[j + 1]);
            if 0 < k < lines.len() {
                assert(rest[k - 1] == lines[k]);
            }
            if forall|j: int| 0 <= j < k ==> !text::holds(#[trigger] lines[j], test) {
                assert forall|j: int| 0 <= j < k - 1 && j < rest.len() implies !text::holds(
                    #[trigger] rest[j],
                    test,
                ) by {
                    assert(!text::holds(lines[j + 1], test));
                }
            }
            if forall|j: int| 0 <= j < lines.len() ==> !text::holds(#[trigger] lines[j], test) {
                assert forall|j: int| 0 <= j < rest.len() implies !text::holds(
                    #[trigger] rest[j],
                    test,
                ) by {
                    assert(!text::holds(lines[j + 1], test));
                }
            }
        }
    }
}

/// The line of a table is read cell by cell: between the rules, trimmed, and without
/// the empty ones.
pub proof fn law_cells_stand_between_the_rules(parts: Seq<Seq<char>>)
    requires
        parts.len() > 0,
        forall|i: int, k: int|
            0 <= i < parts.len() && 0 <= k < parts[i].len() ==> #[trigger] parts[i][k] != '|'
                && parts[i][k] != '\u{2506}' && parts[i][k] != '\u{2502}',
    ensures
        cells_of(split::joined(parts, "|"@)) == parts.map_values(
            |p: Seq<char>| text::trimmed(p),
        ).filter(|t: Seq<char>| t.len() > 0),
{
    reveal_strlit("|");
    assert("|"@ =~= seq!['|']);
    let line = split::joined(parts, "|"@);
    lemma_plain_joined(parts);
    assert forall|i: int, k: int|
        0 <= i < parts.len() && 0 <= k < parts[i].len() implies #[trigger] parts[i][k] != '|' by {}
    split::law_split_undoes_join(parts, '|');
    lemma_filled(parts);
}

proof fn lemma_plain_joined(parts: Seq<Seq<char>>)
    requires
        forall|i: int, k: int|
            0 <= i < parts.len() && 0 <= k < parts[i].len() ==> #[trigger] parts[i][k] != '|'
                && parts[i][k] != '\u{2506}' && parts[i][k] != '\u{2502}',
    ensures
        plain_rules(split::joined(parts, seq!['|'])) == split::joined(parts, seq!['|']),
    decreases parts.len(),
{
    let line = split::joined(parts, seq!['|']);
    if parts.len() == 0 {
        assert(plain_rules(line) =~= line);
    } else if parts.len() == 1 {
        assert forall|k: int| 0 <= k < line.len() implies plain_rules(line)[k] == line[k] by {
            assert(parts[0][k] != '|');
        }
        assert(plain_rules(line) =~= line);
    } else {
        let head = parts.drop_last();
        assert forall|i: int, k: int|
            0 <= i < head.len() && 0 <= k < head[i].len() implies #[trigger] head[i][k] != '|'
            && head[i][k] != '\u{2506}' && head[i][k] != '\u{2502}' by {
            assert(parts[i][k] != '|');
        }
        lemma_plain_joined(head);
        let h = split::joined(head, seq!['|']);
        let last = parts.last();
        assert forall|k: int| 0 <= k < line.len() implies plain_rules(line)[k] == line[k] by {
            if k < h.len() {
                assert(plain_rules(h)[k] == h[k]);
                assert(line[k] == h[k]);
            } else if k > h.len() {
                assert(line[k] == last[k - h.len() - 1]);
                assert(parts[parts.len() - 1][k - h.len() - 1] != '|');
            }
        }
        assert(plain_rules(line) =~= line);
    }
}

proof fn lemma_filled(parts: Seq<Seq<char>>)
    ensures
        filled(parts) == parts.map_values(|p: Seq<char>| text::trimmed(p)).filter(
            |t: Seq<char>| t.len() > 0,
        ),
    decreases parts.len(),
{
    reveal(Seq::filter);
    let all = parts.map_values(|p: Seq<char>| text::trimmed(p));
    if parts.len() > 0 {
        lemma_filled(parts.drop_last());
        assert(all.drop_last() =~= parts.drop_last().map_values(|p: Seq<char>| text::trimmed(p)));
        assert(all.last() == text::trimmed(parts.last()));
    } else {
        assert(filled(parts) =~= all.filter(|t: Seq<char>| t.len() > 0));
    }
}

/// A number in a table is read with or without commas between its digits.
pub proof fn law_table_numbers_are_read(cell: Seq<char>, n: nat)
    requires
        split::without_char(cell, ',') == number::decimal(n),
        n <= u64::MAX,
    ensures
        stat(cell) == Some(n),
{
    number::law_decimal_reads_back(n as int);
}

/// The two figures of a function in a table.
pub open spec fn figures_of(rows: Seq<GasRow>, name: Seq<char>) -> (Option<nat>, Option<nat>) {
    match row_index(rows, name, 0) {
        Some(i) => (rows[i].original, rows[i].optimized),
        None => (None, None),
    }
}

/// A row of a section records the function's average, the third cell, for the section's
/// contract alone, and nothing else changes: neither the figure of the other contract
/// nor another function's. A row needs a name, four numbers and the calls; a row of any
/// other contract is passed over.
pub proof fn law_a_row_records_its_average(
    state: ReportState,
    line: Seq<char>,
    orig_name: Seq<char>,
    opt_name: Seq<char>,
    avg: nat,
    other: Seq<char>,
)
    requires
        header_of(cells_of(line)) is None,
        cells_of(line).len() >= 6,
        !text::same_ignoring_ascii_case(cells_of(line)[0], "Function Name"@),
        stat(cells_of(line)[1]) is Some,
        stat(cells_of(line)[2]) == Some(avg),
        stat(cells_of(line)[3]) is Some,
        stat(cells_of(line)[4]) is Some,
        orig_name != opt_name,
        other != cells_of(line)[0],
    ensures
        ({
            let name = cells_of(line)[0];
            let next = report_step(state, line, orig_name, opt_name);
            let was = figures_of(state.rows, name);
            &&& next.current == state.current
            &&& figures_of(next.rows, other) == figures_of(state.rows, other)
            &&& state.current == Some(orig_name) ==> figures_of(next.rows, name) == (
                Some(avg),
                was.1,
            )
            &&& state.current == Some(opt_name) ==> figures_of(next.rows, name) == (
                was.0,
                Some(avg),
            )
            &&& state.current != Some(orig_name) && state.current != Some(opt_name) ==> next.rows
                == state.rows
        }),
{
    let name = cells_of(line)[0];
    let rows = state.rows;
    if state.current == Some(orig_name) {
        lemma_recorded(rows, name, true, avg, other);
    } else if state.current == Some(opt_name) {
        lemma_recorded(rows, name, false, avg, other);
    }
}

proof fn lemma_recorded(
    rows: Seq<GasRow>,
    name: Seq<char>,
    original: bool,
    gas: nat,
    other: Seq<char>,
)
    requires
        other != name,
    ensures
        ({
            let was = figures_of(rows, name);
            let next = recorded(rows, name, original, gas);
            &&& figures_of(next, other) == figures_of(rows, other)
            &&& figures_of(next, name) == (if original {
                (Some(gas), was.1)
            } else {
                (was.0, Some(gas))
            })
        }),
{
    let next = recorded(rows, name, original, gas);
    lemma_first_row(rows, name);
    lemma_first_row(next, name);
    lemma_first_row(rows, other);
    lemma_first_row(next, other);
    match row_index(rows, name, 0) {
        Some(i) => {
            assert(next[i].name == name);
            assert forall|k: int| 0 <= k < rows.len() && k != i implies next[k]
                == #[trigger] rows[k] by {}
            match row_index(next, name, 0) {
                Some(j) => {
                    if j < i {
                        assert(next[j] == rows[j]);
                    }
                    assert(j == i);
                },
                None => {},
            }
            match row_index(rows, other, 0) {
                Some(j) => {
                    assert(next[j] == rows[j]);
                    let m = row_index(next, other, 0)->0;
                    if m < j {
                        assert(next[m] == rows[m]);
                    }
                    assert(m == j);
                },
                None => {
                    if let Some(m) = row_index(next, other, 0) {
                        assert(next[m] == rows[m]);
                    }
                },
            }
        },
        None => {
            let n = rows.len() as int;
            assert(next[n].name == name);
            assert forall|k: int| 0 <= k < n implies next[k] == #[trigger] rows[k] by {}
            match row_index(next, name, 0) {
                Some(j) => {
                    if j < n {
                        assert(next[j] == rows[j]);
                    }
                },
                None => {},
            }
            match row_index(rows, other, 0) {
                Some(j) => {
                    assert(next[j] == rows[j]);
                    let m = row_index(next, other, 0)->0;
                    if m < j {
                        assert(next[m] == rows[m]);
                    }
                    assert(m == j);
                },
                None => {
                    if let Some(m) = row_index(next, other, 0) {
                        if m < n {
                            assert(next[m] == rows[m]);
                        }
                    }
                },
            }
        },
    }
}

proof fn lemma_first_row(rows: Seq<GasRow>, name: Seq<char>)
    ensures
        row_index(rows, name, 0) matches Some(i) ==> 0 <= i < rows.len() && rows[i].name == name
            && forall|k: int| 0 <= k < i ==> (#[trigger] rows[k]).name != name,
        row_index(rows, name, 0) is None ==> forall|k: int|
            0 <= k < rows.len() ==> (#[trigger] rows[k]).name != name,
{
    lemma_first_row_from(rows, name, 0);
}

proof fn lemma_first_row_from(rows: Seq<GasRow>, name: Seq<char>, from: int)
    requires
        0 <= from,
    ensures
        row_index(rows, name, from) matches Some(i) ==> from <= i < rows.len() && rows[i].name
            == name && forall|k: int| from <= k < i ==> (#[trigger] rows[k]).name != name,
        row_index(rows, name, from) is None ==> forall|k: int|
            from <= k < rows.len() ==> (#[trigger] rows[k]).name != name,
    decreases rows.len() - from,
{
    if from < rows.len() && rows[from].name != name {
        lemma_first_row_from(rows, name, from + 1);
    }
}

/// The report is read to its end, line by line, and a line with a contract's header
/// opens its section and records nothing.
pub proof fn law_the_report_is_read_to_its_end(
    lines: Seq<Seq<char>>,
    line: Seq<char>,
    orig_name: Seq<char>,
    opt_name: Seq<char>,
    contract: Seq<char>,
)
    ensures
        report(lines.push(line), orig_name, opt_name) == report_step(
            report(lines, orig_name, opt_name),
            line,
            orig_name,
            opt_name,
        ),
        report(seq![], orig_name, opt_name).rows.len() == 0,
        report(seq![], orig_name, opt_name).current is None,
        header_of(cells_of(line)) == Some(contract) ==> report(
            lines.push(line),
            orig_name,
            opt_name,
        ) == (ReportState {
            current: Some(contract),
            rows: report(lines, orig_name, opt_name).rows,
        }),
{
    assert(lines.push(line).drop_last() =~= lines);
}

/// A section is headed by a cell that names a file and its contract.
pub proof fn law_sections_are_headed_by_their_contract(
    file: Seq<char>,
    name: Seq<char>,
    rest: Seq<Seq<char>>,
)
    requires
        forall|i: int| 0 <= i < file.len() ==> file[i] != ':',
        forall|i: int| 0 <= i < name.len() ==> name[i] != ':',
        text::is_trim(name),
        name.len() > 0,
        !text::has_suffix(name + " "@, "contract"@),
    ensures
        header_of(seq![file + ".sol:"@ + name + " contract"@] + rest) == Some(name),
{
    let cell = file + ".sol:"@ + name + " contract"@;
    let cells = seq![cell] + rest;
    reveal_strlit(".sol:");
    reveal_strlit(" contract");
    reveal_strlit("contract");
    reveal_strlit(":");
    reveal_strlit(" ");
    text::lemma_put_between(file, ".sol:"@, name + " contract"@);
    assert(cell =~= file + ".sol:"@ + (name + " contract"@));
    let w = "contract"@;
    let n = cell.len() as int;
    assert(cell.subrange(n - 8, n) =~= w);
    assert(cells[0] == cell);
    let a = file + cell.subrange(file.len() as int, file.len() as int + 4);
    let b = name + " contract"@;
    assert(cell =~= a + ":"@ + b);
    assert forall|k: int| 0 <= k < a.len() implies !text::occurs_at(a + ":"@ + b, ":"@, k) by {
        if text::occurs_at(a + ":"@ + b, ":"@, k) {
            assert((a + ":"@ + b).subrange(k, k + 1)[0] == a[k]);
            if k < file.len() {
                assert(a[k] == file[k]);
            }
        }
    }
    split::law_split_at_the_separator(a, ":"@, b);
    assert forall|k: int| !text::occurs_at(b, ":"@, k) by {
        if text::occurs_at(b, ":"@, k) {
            assert(b.subrange(k, k + 1)[0] == b[k]);
            if k < name.len() {
                assert(b[k] == name[k]);
            }
        }
    }
    split::law_no_separator_is_one_piece(b, ":"@);
    assert(split::pieces_of(cell, ":"@) =~= seq![a, b]);
    assert(split::pieces_of(cell, ":"@).last() == b);
    let m = b.len() as int;
    assert(b.subrange(m - 8, m) =~= w);
    assert(text::has_suffix(b, w));
    assert(b.take(m - 8) =~= name + " "@);
    assert(text::without_suffixes(b, w) == text::without_suffixes(name + " "@, w));
    assert(text::without_suffixes(name + " "@, w) == name + " "@);
    assert(name + " "@ =~= name.push(' '));
    text::lemma_trimmed_push(name, ' ');
    text::lemma_trim_is_kept(name);
}

} // verus!
