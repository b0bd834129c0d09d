use vstd::prelude::*;
use vstd::string::StringExecFns;

use tabled::builder::Builder;

use crate::table::advice::entry_text;
use crate::table::fixed::{enabled, fixed_constant, Selector};
use crate::table::{cell, Table, TableView, ADVICE_COLUMNS, NUM_ROWS};
use crate::types::{decimal, decimal_text, decimal_value, lemma_decimal_read_back};

verus! {

/// The table builder of tabled, which collects rows of text cells.
#[verifier::external_type_specification]
#[verifier::external_body]
pub struct ExBuilder(tabled::builder::Builder);

/// The text of every cell that a tabled builder holds, row by row.
pub uninterp spec fn builder_rows(builder: tabled::builder::Builder) -> Seq<Seq<Seq<char>>>;

/// The number of columns that a tabled builder counts.
pub uninterp spec fn builder_width(builder: tabled::builder::Builder) -> nat;

/// The text that a tabled builder puts into the cells it adds to even out its rows.
pub uninterp spec fn builder_filler(builder: tabled::builder::Builder) -> Seq<char>;

/// `n` cells that hold `filler`.
pub open spec fn fillers(filler: Seq<char>, n: int) -> Seq<Seq<char>> {
    Seq::new(n as nat, |i: int| filler)
}

/// The text of each string.
pub open spec fn texts(strings: Seq<String>) -> Seq<Seq<char>> {
    strings.map_values(|s: String| s@)
}

/// The rows `rows` with one more cell at the end of each: the text of `column` at the same
/// place, or `filler` where `column` is shorter; what `column` has beyond the rows is
/// dropped.
pub open spec fn with_column(
    rows: Seq<Seq<Seq<char>>>,
    column: Seq<Seq<char>>,
    filler: Seq<char>,
) -> Seq<Seq<Seq<char>>> {
    Seq::new(
        rows.len(),
        |i: int|
            rows[i].push(
                if i < column.len() {
                    column[i]
                } else {
                    filler
                },
            ),
    )
}

/// `Builder::default` of tabled: a builder with no rows and no columns, which evens out its
/// rows with empty cells.
#[verifier::external_body]
fn new_builder() -> (builder: Builder)
    ensures
        builder_rows(builder) == Seq::<Seq<Seq<char>>>::empty(),
        builder_width(builder) == 0,
        builder_filler(builder) == Seq::<char>::empty(),
{
    Builder::default()
}

/// `Builder::push_record` of tabled: the record, padded with filler cells to the number of
/// columns, becomes the last row; where it is longer than that number, every earlier row is
/// padded with filler cells to its length, which becomes the number of columns.
#[verifier::external_body]
fn push_record(builder: &mut Builder, record: Vec<String>)
    ensures
        builder_width(*final(builder)) == if record.len() > builder_width(*old(builder)) {
            record.len() as nat
        } else {
            builder_width(*old(builder))
        },
        builder_rows(*final(builder)) == builder_rows(*old(builder)).map_values(
            |row: Seq<Seq<char>>|
                row + fillers(
                    builder_filler(*old(builder)),
                    builder_width(*final(builder)) - builder_width(*old(builder)),
                ),
        ).push(
            texts(record@) + fillers(
                builder_filler(*old(builder)),
                builder_width(*final(builder)) - record.len(),
            ),
        ),
        builder_filler(*final(builder)) == builder_filler(*old(builder)),
{
    builder.push_record(record)
}

/// `Builder::push_column` of tabled: each row gets the text of `column` at its place as a
/// new last cell, or a filler cell where `column` is shorter; the number of columns grows by
/// one.
#[verifier::external_body]
fn push_column(builder: &mut Builder, column: Vec<String>)
    requires
        builder_width(*old(builder)) < usize::MAX,
    ensures
        builder_width(*final(builder)) == builder_width(*old(builder)) + 1,
        builder_rows(*final(builder)) == with_column(
            builder_rows(*old(builder)),
            texts(column@),
            builder_filler(*old(builder)),
        ),
        builder_filler(*final(builder)) == builder_filler(*old(builder)),
{
    builder.push_column(column)
}

/// The first column of the rendered table that shows a selector.
pub open spec fn first_selector_column() -> int {
    3 + ADVICE_COLUMNS
}

/// The title of column `j` of the rendered table.
pub open spec fn column_title(j: int) -> Seq<char> {
    let s = j - first_selector_column();
    if j == 0 {
        "row index"@
    } else if j == 1 {
        "result (public input)"@
    } else if j == 2 {
        "round constants (fixed)"@
    } else if s < 0 {
        ""@
    } else if s == 0 {
        "lookup"@
    } else if s == 1 {
        "composition"@
    } else if s == 2 {
        "addition"@
    } else if s == 3 {
        "decomposition"@
    } else if s == 4 {
        "witness computation"@
    } else {
        "result verification"@
    }
}

/// The selector shown in column `j` (from `first_selector_column()` on) of the rendered
/// table.
pub open spec fn column_selector(j: int) -> Selector {
    let s = j - first_selector_column();
    if s == 0 {
        Selector::Lookup
    } else if s == 1 {
        Selector::Composition
    } else if s == 2 {
        Selector::Addition
    } else if s == 3 {
        Selector::Decomposition
    } else if s == 4 {
        Selector::WitnessComputation
    } else {
        Selector::ResultVerification
    }
}

/// A check mark where a selector is on, nothing where it is off.
pub open spec fn selector_mark(on: bool) -> Seq<char> {
    if on {
        "\u{2705}"@
    } else {
        Seq::empty()
    }
}

/// Columns of the rendered table: the row index, the public input, the constants, the
/// advice columns and one column for each selector.
pub open spec fn rendered_width() -> int {
    first_selector_column() + 6
}

/// The text in column `j` of table row `row` of `t`.
pub open spec fn value_text(t: TableView, j: int, row: int) -> Seq<char> {
    if j == 0 {
        decimal(row as nat)
    } else if j == 1 {
        decimal(t.public_input[row] as nat)
    } else if j == 2 {
        decimal(fixed_constant(row) as nat)
    } else if j < first_selector_column() {
        entry_text(cell(t, j - 3, row))
    } else {
        selector_mark(enabled(column_selector(j), row))
    }
}

/// The text in column `j` of line `r` of the rendered table: the titles in the first line,
/// then one line for each row of the table.
pub open spec fn cell_text(t: TableView, r: int, j: int) -> Seq<char> {
    if r == 0 {
        column_title(j)
    } else {
        value_text(t, j, r - 1)
    }
}

/// Column `j` of the rendered table, title first.
pub open spec fn rendered_column(t: TableView, j: int) -> Seq<Seq<char>> {
    Seq::new((NUM_ROWS + 1) as nat, |r: int| cell_text(t, r, j))
}

/// The first `k` columns of the rendered table, line by line.
pub open spec fn rendered_prefix(t: TableView, k: int) -> Seq<Seq<Seq<char>>> {
    Seq::new((NUM_ROWS + 1) as nat, |r: int| Seq::new(k as nat, |j: int| cell_text(t, r, j)))
}

/// The rendered table of `t`, line by line: a line of titles, then for each row its index,
/// public input and constant in decimal, the text of its advice cells and a check mark under
/// each selector that is on in it.
pub open spec fn rendered_rows(t: TableView) -> Seq<Seq<Seq<char>>> {
    rendered_prefix(t, rendered_width())
}

/// `rows` with columns `from` to `to - 1` of the rendered table of `t` added, in order,
/// `filler` standing in the rows beyond its last line.
pub open spec fn with_columns(
    rows: Seq<Seq<Seq<char>>>,
    t: TableView,
    from: int,
    to: int,
    filler: Seq<char>,
) -> Seq<Seq<Seq<char>>>
    decreases to - from,
{
    if to <= from {
        rows
    } else {
        with_column(with_columns(rows, t, from, to - 1, filler), rendered_column(t, to - 1), filler)
    }
}

/// Adding columns `from` to `to - 1` to the first `from` columns of the rendered table gives
/// its first `to` columns.
proof fn lemma_with_columns(t: TableView, from: int, to: int, filler: Seq<char>)
    requires
        0 <= from <= to,
    ensures
        with_columns(rendered_prefix(t, from), t, from, to, filler) == rendered_prefix(t, to),
    decreases to - from,
{
    if to > from {
        lemma_with_columns(t, from, to - 1, filler);
        assert(with_column(rendered_prefix(t, to - 1), rendered_column(t, to - 1), filler)
            =~= rendered_prefix(t, to)) by {
            assert forall|r: int| 0 <= r < NUM_ROWS + 1 implies #[trigger] with_column(
                rendered_prefix(t, to - 1),
                rendered_column(t, to - 1),
                filler,
            )[r] =~= rendered_prefix(t, to)[r] by {}
        }
    }
}

/// The text of the first column of line `r` of the rendered table: its title, then the
/// index of each row.
pub open spec fn index_line(r: int) -> Seq<char> {
    if r == 0 {
        column_title(0)
    } else {
        decimal((r - 1) as nat)
    }
}

/// Adds a line with the title of the first column, then a line with the index of each row,
/// each padded with filler cells to the number of columns (at least one).
fn init_rows(builder: &mut Builder)
    ensures
        builder_width(*final(builder)) == if builder_width(*old(builder)) > 0 {
            builder_width(*old(builder))
        } else {
            1
        },
        builder_rows(*final(builder)) == builder_rows(*old(builder)).map_values(
            |row: Seq<Seq<char>>|
                row + fillers(
                    builder_filler(*old(builder)),
                    builder_width(*final(builder)) - builder_width(*old(builder)),
                ),
        ) + Seq::new(
            (NUM_ROWS + 1) as nat,
            |r: int|
                seq![index_line(r)] + fillers(
                    builder_filler(*old(builder)),
                    builder_width(*final(builder)) - 1,
                ),
        ),
        builder_filler(*final(builder)) == builder_filler(*old(builder)),
{
    let ghost filler = builder_filler(*builder);
    let ghost earlier = builder_rows(*builder).map_values(
        |row: Seq<Seq<char>>|
            row + fillers(
                filler,
                (if builder_width(*builder) > 0 {
                    builder_width(*builder)
                } else {
                    1
                }) - builder_width(*builder),
            ),
    );
    let mut title: Vec<String> = Vec::new();
    title.push(String::from_str("row index"));
    push_record(builder, title);
    let ghost width = builder_width(*builder);
    proof {
        assert(texts(title@) =~= seq![index_line(0)]);
        assert(builder_rows(*builder) =~= earlier + Seq::new(
            1,
            |r: int| seq![index_line(r)] + fillers(filler, width - 1),
        ));
    }
    for i in 0..NUM_ROWS
        invariant
            width >= 1,
            builder_width(*builder) == width,
            builder_filler(*builder) == filler,
            builder_rows(*builder) == earlier + Seq::new(
                (i + 1) as nat,
                |r: int| seq![index_line(r)] + fillers(filler, width - 1),
            ),
    {
        let mut record: Vec<String> = Vec::new();
        record.push(decimal_text(i as u64));
        let ghost before = builder_rows(*builder);
        push_record(builder, record);
        proof {
            assert(before.map_values(|row: Seq<Seq<char>>| row + fillers(filler, 0)) =~= before)
                by {
                assert forall|r: int| 0 <= r < before.len() implies #[trigger] (before[r] + fillers(
                    filler,
                    0,
                )) =~= before[r] by {}
            }
            assert(texts(record@) =~= seq![index_line(i + 1)]);
            assert(builder_rows(*builder) =~= earlier + Seq::new(
                (i + 2) as nat,
                |r: int| seq![index_line(r)] + fillers(filler, width - 1),
            ));
        }
    }
}

/// The column `title`, then `values`.
fn render_column(title: &str, values: Vec<String>) -> (column: Vec<String>)
    ensures
        texts(column@) == seq![title@] + texts(values@),
{
    let ghost given = values@;
    let mut column: Vec<String> = Vec::new();
    column.push(String::from_str(title));
    let mut values = values;
    column.append(&mut values);
    proof {
        assert(column@ == seq![column@[0]] + given);
        assert(texts(column@) =~= seq![title@] + texts(given));
    }
    column
}

impl Table {
    /// The table rendered into a tabled builder, ready to be built: a line of titles, then
    /// for each row its index, public input and constant in decimal, its advice cells and a
    /// check mark under each selector that is on in it.
    pub fn render(&self) -> (builder: Builder)
        ensures
            builder_rows(builder) == rendered_rows(self@),
            builder_width(builder) == rendered_width(),
    {
        let mut builder = new_builder();
        init_rows(&mut builder);
        proof {
            let rows = builder_rows(builder);
            assert forall|r: int| 0 <= r < NUM_ROWS + 1 implies #[trigger] rows[r]
                =~= rendered_prefix(self@, 1)[r] by {
                assert(rows[r] == seq![index_line(r)] + fillers(Seq::<char>::empty(), 0));
            }
            assert(rows =~= rendered_prefix(self@, 1));
        }
        self.render_instance(&mut builder);
        self.render_fixed(&mut builder);
        self.render_witness(&mut builder);
        self.render_selectors(&mut builder);
        proof {
            lemma_with_columns(self@, 1, 2, Seq::<char>::empty());
            lemma_with_columns(self@, 2, 3, Seq::<char>::empty());
            lemma_with_columns(self@, 3, 3 + ADVICE_COLUMNS, Seq::<char>::empty());
            lemma_with_columns(self@, 3 + ADVICE_COLUMNS, rendered_width(), Seq::<char>::empty());
        }
        builder
    }

    /// Adds the column of the public input.
    fn render_instance(&self, builder: &mut Builder)
        requires
            builder_width(*old(builder)) < usize::MAX,
        ensures
            builder_width(*final(builder)) == builder_width(*old(builder)) + 1,
            builder_rows(*final(builder)) == with_columns(
                builder_rows(*old(builder)),
                self@,
                1,
                2,
                builder_filler(*old(builder)),
            ),
            builder_filler(*final(builder)) == builder_filler(*old(builder)),
    {
        let mut values: Vec<String> = Vec::new();
        for row in 0..NUM_ROWS
            invariant
                values@.len() == row,
                forall|r: int| 0 <= r < row ==> #[trigger] values@[r]@ == value_text(self@, 1, r),
        {
            values.push(decimal_text(self.public_input_at(row) as u64));
        }
        let column = render_column("result (public input)", values);
        push_column(builder, column);
        proof {
            assert(texts(column@) =~= rendered_column(self@, 1));
            assert(with_columns(builder_rows(*old(builder)), self@, 1, 1, builder_filler(*old(builder)))
                == builder_rows(*old(builder)));
        }
    }

    /// Adds the column of the round constants.
    fn render_fixed(&self, builder: &mut Builder)
        requires
            builder_width(*old(builder)) < usize::MAX,
        ensures
            builder_width(*final(builder)) == builder_width(*old(builder)) + 1,
            builder_rows(*final(builder)) == with_columns(
                builder_rows(*old(builder)),
                self@,
                2,
                3,
                builder_filler(*old(builder)),
            ),
            builder_filler(*final(builder)) == builder_filler(*old(builder)),
    {
        let mut values: Vec<String> = Vec::new();
        for row in 0..NUM_ROWS
            invariant
                values@.len() == row,
                forall|r: int| 0 <= r < row ==> #[trigger] values@[r]@ == value_text(self@, 2, r),
        {
            values.push(decimal_text(self.constant(row) as u64));
        }
        let column = render_column("round constants (fixed)", values);
        push_column(builder, column);
        proof {
            assert(texts(column@) =~= rendered_column(self@, 2));
            assert(with_columns(builder_rows(*old(builder)), self@, 2, 2, builder_filler(*old(builder)))
                == builder_rows(*old(builder)));
        }
    }

    /// Adds the advice columns, untitled.
    fn render_witness(&self, builder: &mut Builder)
        requires
            builder_width(*old(builder)) + ADVICE_COLUMNS < usize::MAX,
        ensures
            builder_width(*final(builder)) == builder_width(*old(builder)) + ADVICE_COLUMNS,
            builder_rows(*final(builder)) == with_columns(
                builder_rows(*old(builder)),
                self@,
                3,
                3 + ADVICE_COLUMNS,
                builder_filler(*old(builder)),
            ),
            builder_filler(*final(builder)) == builder_filler(*old(builder)),
    {
        let ghost filler = builder_filler(*builder);
        let ghost start = builder_rows(*builder);
        let ghost width = builder_width(*builder);
        for col in 0..ADVICE_COLUMNS
            invariant
                width + ADVICE_COLUMNS < usize::MAX,
                builder_width(*builder) == width + col,
                builder_filler(*builder) == filler,
                builder_rows(*builder) == with_columns(start, self@, 3, 3 + col, filler),
        {
            let mut values: Vec<String> = Vec::new();
            for row in 0..NUM_ROWS
                invariant
                    col < ADVICE_COLUMNS,
                    values@.len() == row,
                    forall|r: int|
                        0 <= r < row ==> #[trigger] values@[r]@ == value_text(self@, 3 + col, r),
            {
                values.push(self.entry(col, row).text());
            }
            let column = render_column("", values);
            push_column(builder, column);
            proof {
                assert(texts(column@) =~= rendered_column(self@, 3 + col));
                assert(with_columns(start, self@, 3, 3 + col + 1, filler) == with_column(
                    with_columns(start, self@, 3, 3 + col, filler),
                    rendered_column(self@, 3 + col),
                    filler,
                ));
            }
        }
    }

    /// Adds one column for each selector, with a check mark in the rows where it is on.
    fn render_selectors(&self, builder: &mut Builder)
        requires
            builder_width(*old(builder)) + 6 < usize::MAX,
        ensures
            builder_width(*final(builder)) == builder_width(*old(builder)) + 6,
            builder_rows(*final(builder)) == with_columns(
                builder_rows(*old(builder)),
                self@,
                3 + ADVICE_COLUMNS,
                rendered_width(),
                builder_filler(*old(builder)),
            ),
            builder_filler(*final(builder)) == builder_filler(*old(builder)),
    {
        let ghost start = builder_rows(*builder);
        let ghost filler = builder_filler(*builder);
        assert(with_columns(start, self@, first_selector_column(), first_selector_column(), filler) == start);
        let column = render_column("lookup", self.render_selector(Selector::Lookup));
        assert(texts(column@) =~= rendered_column(self@, first_selector_column()));
        push_column(builder, column);
        assert(builder_rows(*builder) == with_columns(start, self@, first_selector_column(), first_selector_column() + 1, filler));
        let column = render_column("composition", self.render_selector(Selector::Composition));
        assert(texts(column@) =~= rendered_column(self@, first_selector_column() + 1));
        push_column(builder, column);
        assert(builder_rows(*builder) == with_columns(start, self@, first_selector_column(), first_selector_column() + 2, filler));
        let column = render_column("addition", self.render_selector(Selector::Addition));
        assert(texts(column@) =~= rendered_column(self@, first_selector_column() + 2));
        push_column(builder, column);
        assert(builder_rows(*builder) == with_columns(start, self@, first_selector_column(), first_selector_column() + 3, filler));
        let column = render_column("decomposition", self.render_selector(Selector::Decomposition));
        assert(texts(column@) =~= rendered_column(self@, first_selector_column() + 3));
        push_column(builder, column);
        assert(builder_rows(*builder) == with_columns(start, self@, first_selector_column(), first_selector_column() + 4, filler));
        let column = render_column(
            "witness computation",
            self.render_selector(Selector::WitnessComputation),
        );
        assert(texts(column@) =~= rendered_column(self@, first_selector_column() + 4));
        push_column(builder, column);
        assert(builder_rows(*builder) == with_columns(start, self@, first_selector_column(), first_selector_column() + 5, filler));
        let column = render_column(
            "result verification",
            self.render_selector(Selector::ResultVerification),
        );
        assert(texts(column@) =~= rendered_column(self@, first_selector_column() + 5));
        push_column(builder, column);
        assert(builder_rows(*builder) == with_columns(start, self@, first_selector_column(), first_selector_column() + 6, filler));
    }

    /// A check mark for each row in which `selector` is on, nothing for the others.
    fn render_selector(&self, selector: Selector) -> (marks: Vec<String>)
        ensures
            marks@.len() == NUM_ROWS,
            forall|r: int|
                0 <= r < NUM_ROWS ==> #[trigger] marks@[r]@ == selector_mark(enabled(selector, r)),
    {
        let mut marks: Vec<String> = Vec::new();
        for row in 0..NUM_ROWS
            invariant
                marks@.len() == row,
                forall|r: int|
                    0 <= r < row ==> #[trigger] marks@[r]@ == selector_mark(enabled(selector, r)),
        {
            if self.is_enabled(selector, row) {
                marks.push(String::from_str("\u{2705}"));
            } else {
                marks.push(String::new());
            }
        }
        marks
    }
}

/// Each line after the titles shows its row: the first three cells read back as the row's
/// index, public input and constant; then come the texts of the row's advice cells; then,
/// for lookup, composition, addition, decomposition, witness computation and result
/// verification in that order, a check mark where the selector is on and nothing where it
/// is off.
pub proof fn lemma_rendered_line(t: TableView, row: int)
    requires
        0 <= row < NUM_ROWS,
        t.public_input.len() == NUM_ROWS,
    ensures
        ({
            let line = rendered_rows(t)[row + 1];
            let mark = |s: Selector| if enabled(s, row) {
                "\u{2705}"@
            } else {
                Seq::<char>::empty()
            };
            let first = 3 + ADVICE_COLUMNS;
            &&& line.len() == first + 6
            &&& decimal_value(line[0]) == row
            &&& decimal_value(line[1]) == t.public_input[row]
            &&& decimal_value(line[2]) == fixed_constant(row)
            &&& forall|c: int| 0 <= c < ADVICE_COLUMNS ==> #[trigger] line[3 + c] == entry_text(cell(t, c, row))
            &&& line[first] == mark(Selector::Lookup)
            &&& line[first + 1] == mark(Selector::Composition)
            &&& line[first + 2] == mark(Selector::Addition)
            &&& line[first + 3] == mark(Selector::Decomposition)
            &&& line[first + 4] == mark(Selector::WitnessComputation)
            &&& line[first + 5] == mark(Selector::ResultVerification)
        }),
{
    lemma_decimal_read_back(row as nat);
    lemma_decimal_read_back(t.public_input[row] as nat);
    lemma_decimal_read_back(fixed_constant(row) as nat);
}

/// The first line of the rendered table holds the titles: the row index, the public input,
/// the round constants, an empty title over each advice column, then the six gates in the
/// order lookup, composition, addition, decomposition, witness computation, result
/// verification.
pub proof fn lemma_rendered_titles(t: TableView)
    ensures
        rendered_rows(t)[0] == seq!["row index"@, "result (public input)"@, "round constants (fixed)"@]
            + Seq::new(ADVICE_COLUMNS as nat, |c: int| ""@) + seq![
            "lookup"@,
            "composition"@,
            "addition"@,
            "decomposition"@,
            "witness computation"@,
            "result verification"@,
        ],
{
    let expected = seq!["row index"@, "result (public input)"@, "round constants (fixed)"@]
        + Seq::new(ADVICE_COLUMNS as nat, |c: int| ""@) + seq![
        "lookup"@,
        "composition"@,
        "addition"@,
        "decomposition"@,
        "witness computation"@,
        "result verification"@,
    ];
    assert(rendered_rows(t)[0] =~= expected);
}

} // verus!
