use sha_on_cq::sha::{prepare_input, sha_hash};
use sha_on_cq::table::advice::AdviceEntry;
use sha_on_cq::table::fixed::Selector;
use sha_on_cq::table::{Table, ADVICE_COLUMNS, NUM_ROWS};
use sha_on_cq::types::{decimal_text, format_limb_bits, format_word_bits, format_wordsum_bits};

fn rendered_cells(table: &Table) -> Vec<Vec<String>> {
    Vec::from(table.render())
}

#[test]
fn render_has_a_title_line_and_a_line_per_row() {
    let table = Table::new(prepare_input(""), sha_hash(""));
    let builder = table.render();
    assert_eq!(builder.count_records(), NUM_ROWS + 1);
    assert_eq!(ADVICE_COLUMNS, 9);
    assert_eq!(builder.count_columns(), 18);
}

#[test]
fn render_titles() {
    let table = Table::new(prepare_input(""), sha_hash(""));
    let cells = rendered_cells(&table);
    let mut expected = vec![
        "row index".to_string(),
        "result (public input)".to_string(),
        "round constants (fixed)".to_string(),
    ];
    for _ in 0..ADVICE_COLUMNS {
        expected.push(String::new());
    }
    for title in [
        "lookup",
        "composition",
        "addition",
        "decomposition",
        "witness computation",
        "result verification",
    ] {
        expected.push(title.to_string());
    }
    assert_eq!(cells[0], expected);
}

#[test]
fn render_shows_every_cell_of_the_table() {
    let table = Table::new(prepare_input("abc"), sha_hash("abc"));
    let cells = rendered_cells(&table);
    let selectors = [
        Selector::Lookup,
        Selector::Composition,
        Selector::Addition,
        Selector::Decomposition,
        Selector::WitnessComputation,
        Selector::ResultVerification,
    ];
    for row in 0..NUM_ROWS {
        let line = &cells[row + 1];
        assert_eq!(line[0], row.to_string());
        assert_eq!(line[1], table.public_input_at(row).to_string());
        assert_eq!(line[2], table.constant(row).to_string());
        for col in 0..ADVICE_COLUMNS {
            assert_eq!(line[3 + col], table.entry(col, row).text());
        }
        for (i, selector) in selectors.iter().enumerate() {
            let mark = if table.is_enabled(*selector, row) { "\u{2705}" } else { "" };
            assert_eq!(line[3 + ADVICE_COLUMNS + i], mark);
        }
    }
}

#[test]
fn render_of_first_round_rows() {
    let table = Table::new(prepare_input(""), sha_hash(""));
    let cells = rendered_cells(&table);
    // Row 12 is the first row of the first round: the limbs of the initial `a` and `e`.
    assert_eq!(
        &cells[13][0..12],
        &["12", "0", "0", "848", "633", "615", "648", "916", "639", "2147483648", "", ""]
    );
    assert_eq!(cells[13][12], "\u{2705}");
    assert_eq!(cells[13][13], "");
    // Row 14, the third row of the first round, holds the first round constant.
    assert_eq!(cells[15][2], "1116352408");
}

#[test]
fn advice_entry_text_is_decimal() {
    assert_eq!(AdviceEntry::Mpty.text(), "");
    assert_eq!(AdviceEntry::Limb(848).text(), "848");
    assert_eq!(AdviceEntry::Word(0x6a09e667).text(), "1779033703");
    assert_eq!(AdviceEntry::WSum(1 << 40).text(), "1099511627776");
}

#[test]
fn decimal_text_edges() {
    assert_eq!(decimal_text(0), "0");
    assert_eq!(decimal_text(9), "9");
    assert_eq!(decimal_text(10), "10");
    assert_eq!(decimal_text(u64::MAX), "18446744073709551615");
}

#[test]
fn binary_digits_read_back() {
    for word in [0u32, 1, 0x6a09e667, u32::MAX] {
        assert_eq!(u32::from_str_radix(&format_word_bits(word), 2), Ok(word));
    }
    for limb in [0u16, 1, 848, u16::MAX] {
        assert_eq!(u16::from_str_radix(&format_limb_bits(limb), 2), Ok(limb));
    }
    for sum in [0u64, 1, (1 << 40) + 7, u64::MAX] {
        assert_eq!(u64::from_str_radix(&format_wordsum_bits(sum), 2), Ok(sum));
    }
}

#[test]
fn decimal_text_reads_back() {
    for n in [0u64, 7, 10, 99, 100, 4294967295, 1 << 40, u64::MAX] {
        assert_eq!(decimal_text(n).parse::<u64>(), Ok(n));
    }
}
