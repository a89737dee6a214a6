//! The text diagram of a network: a title, then one column per layer, each
//! with a header and one cell per neuron, every column padded to the width
//! of the widest text plus four spaces.
use vstd::prelude::*;
use crate::text::push_char;

verus! {

/// A column of the diagram: its header and its cells, top to bottom.
pub type DiagramColumn = (String, Vec<String>);

/// The greater of `a` and `b`.
pub open spec fn max_nat(a: nat, b: nat) -> nat {
    if a >= b {
        a
    } else {
        b
    }
}

/// The length, in characters, of the longest of `texts` (0 for none).
pub open spec fn widest_text(texts: Seq<String>) -> nat
    decreases texts.len(),
{
    if texts.len() == 0 {
        0
    } else {
        max_nat(widest_text(texts.drop_last()), texts.last()@.len())
    }
}

/// The length of the longest header or cell of `columns`.
pub open spec fn widest_cell(columns: Seq<DiagramColumn>) -> nat
    decreases columns.len(),
{
    if columns.len() == 0 {
        0
    } else {
        max_nat(
            widest_cell(columns.drop_last()),
            max_nat(columns.last().0@.len(), widest_text(columns.last().1@)),
        )
    }
}

/// The number of cells of the longest column.
pub open spec fn most_cells(columns: Seq<DiagramColumn>) -> nat
    decreases columns.len(),
{
    if columns.len() == 0 {
        0
    } else {
        max_nat(most_cells(columns.drop_last()), columns.last().1@.len())
    }
}

/// `n` copies of `c`.
pub open spec fn repeated(c: char, n: nat) -> Seq<char> {
    Seq::new(n, |i: int| c)
}

/// `text` followed by spaces up to `width` characters.
pub open spec fn padded(text: Seq<char>, width: nat) -> Seq<char> {
    if text.len() < width {
        text + repeated(' ', (width - text.len()) as nat)
    } else {
        text
    }
}

/// The text of cell `row` of `column`; empty below its last cell.
pub open spec fn cell_text(column: DiagramColumn, row: int) -> Seq<char> {
    if 0 <= row < column.1@.len() {
        column.1@[row]@
    } else {
        seq![]
    }
}

/// The texts that `text_of` picks from each column, each padded to `width`,
/// one after the other.
pub open spec fn joined(
    columns: Seq<DiagramColumn>,
    width: nat,
    text_of: spec_fn(DiagramColumn) -> Seq<char>,
) -> Seq<char>
    decreases columns.len(),
{
    if columns.len() == 0 {
        seq![]
    } else {
        joined(columns.drop_last(), width, text_of) + padded(text_of(columns.last()), width)
    }
}

/// The headers, each padded to `width`.
pub open spec fn header_line(columns: Seq<DiagramColumn>, width: nat) -> Seq<char> {
    joined(columns, width, |column: DiagramColumn| column.0@)
}

/// Under each header as many dashes as it has characters, then spaces up to
/// `width`.
pub open spec fn rule_line(columns: Seq<DiagramColumn>, width: nat) -> Seq<char> {
    joined(columns, width, |column: DiagramColumn| repeated('-', column.0@.len()))
}

/// Cell `row` of every column, each padded to `width`.
pub open spec fn row_line(columns: Seq<DiagramColumn>, width: nat, row: int) -> Seq<char> {
    joined(columns, width, |column: DiagramColumn| cell_text(column, row))
}

/// The lines of the diagram: `Network`, a rule of `=`, an empty line, the
/// headers, a rule of `-` under each header, then one line per row down to
/// the longest column; every column is `widest_cell + 4` characters wide.
pub open spec fn diagram_text(columns: Seq<DiagramColumn>) -> Seq<Seq<char>> {
    let width = widest_cell(columns) + 4;
    seq![
        seq!['N', 'e', 't', 'w', 'o', 'r', 'k'],
        repeated('=', 7),
        seq![],
        header_line(columns, width),
        rule_line(columns, width),
    ] + Seq::new(most_cells(columns), |row: int| row_line(columns, width, row))
}

/// Joined texts that fit the width take `width` characters per column.
proof fn lemma_joined_len(
    columns: Seq<DiagramColumn>,
    width: nat,
    text_of: spec_fn(DiagramColumn) -> Seq<char>,
)
    requires
        forall|i: int| 0 <= i < columns.len() ==> text_of(#[trigger] columns[i]).len() <= width,
    ensures
        joined(columns, width, text_of).len() == columns.len() * width,
    decreases columns.len(),
{
    if columns.len() > 0 {
        let front = columns.drop_last();
        assert forall|i: int| 0 <= i < front.len() implies text_of(#[trigger] front[i]).len()
            <= width by {
            assert(front[i] == columns[i]);
        }
        lemma_joined_len(front, width, text_of);
        assert(text_of(columns[columns.len() - 1]).len() <= width);
        let n = columns.len();
        assert((n - 1) * width + width == n * width) by (nonlinear_arith);
    }
}

/// Character `k` of the slot of column `c` in joined texts that fit the
/// width: the column's text there, then spaces.
proof fn lemma_joined_at(
    columns: Seq<DiagramColumn>,
    width: nat,
    text_of: spec_fn(DiagramColumn) -> Seq<char>,
    c: int,
    k: int,
)
    requires
        forall|i: int| 0 <= i < columns.len() ==> text_of(#[trigger] columns[i]).len() <= width,
        0 <= c < columns.len(),
        0 <= k < width,
    ensures
        joined(columns, width, text_of)[c * width + k] == (if k < text_of(columns[c]).len() {
            text_of(columns[c])[k]
        } else {
            ' '
        }),
    decreases columns.len(),
{
    let front = columns.drop_last();
    let n = columns.len();
    assert forall|i: int| 0 <= i < front.len() implies text_of(#[trigger] front[i]).len()
        <= width by {
        assert(front[i] == columns[i]);
    }
    lemma_joined_len(front, width, text_of);
    let head = joined(front, width, text_of);
    let tail = padded(text_of(columns[n - 1]), width);
    assert(joined(columns, width, text_of) == head + tail);
    if c == n - 1 {
        assert(c * width + k == (n - 1) * width + k);
    } else {
        assert(c * width + k < (n - 1) * width) by (nonlinear_arith)
            requires
                c + 1 <= n - 1,
                0 <= k < width,
                0 <= c,
        ;
        assert(0 <= c * width) by (nonlinear_arith)
            requires
                0 <= c,
        ;
        lemma_joined_at(front, width, text_of, c, k);
        assert(front[c] == columns[c]);
    }
}

/// No text is longer than the longest.
proof fn lemma_widest_text_bounds(texts: Seq<String>)
    ensures
        forall|i: int| 0 <= i < texts.len() ==> (#[trigger] texts[i])@.len() <= widest_text(texts),
    decreases texts.len(),
{
    if texts.len() > 0 {
        lemma_widest_text_bounds(texts.drop_last());
        assert forall|i: int| 0 <= i < texts.len() implies (#[trigger] texts[i])@.len()
            <= widest_text(texts) by {
            if i < texts.len() - 1 {
                assert(texts.drop_last()[i] == texts[i]);
            }
        }
    }
}

/// No header or cell is longer than `widest_cell`.
proof fn lemma_widest_cell_bounds(columns: Seq<DiagramColumn>)
    ensures
        forall|c: int|
            0 <= c < columns.len() ==> (#[trigger] columns[c]).0@.len() <= widest_cell(columns),
        forall|c: int, r: int|
            0 <= c < columns.len() && 0 <= r < columns[c].1@.len() ==> (#[trigger] columns[c].1@[r])@.len()
                <= widest_cell(columns),
    decreases columns.len(),
{
    if columns.len() > 0 {
        let front = columns.drop_last();
        lemma_widest_cell_bounds(front);
        lemma_widest_text_bounds(columns.last().1@);
        assert forall|c: int| 0 <= c < columns.len() implies (#[trigger] columns[c]).0@.len()
            <= widest_cell(columns) by {
            if c < columns.len() - 1 {
                assert(front[c] == columns[c]);
            }
        }
        assert forall|c: int, r: int|
            0 <= c < columns.len() && 0 <= r < columns[c].1@.len() implies (#[trigger] columns[c].1@[r])@.len()
            <= widest_cell(columns) by {
            if c < columns.len() - 1 {
                assert(front[c] == columns[c]);
                assert(front[c].1@[r] == columns[c].1@[r]);
            } else {
                assert(columns.last().1@[r] == columns[c].1@[r]);
            }
        }
    }
}

/// `most_cells` is the cell count of the longest column.
proof fn lemma_most_cells_is_longest(columns: Seq<DiagramColumn>)
    ensures
        forall|c: int| 0 <= c < columns.len() ==> (#[trigger] columns[c]).1@.len() <= most_cells(columns),
        most_cells(columns) == 0 || exists|c: int|
            0 <= c < columns.len() && (#[trigger] columns[c]).1@.len() == most_cells(columns),
    decreases columns.len(),
{
    if columns.len() > 0 {
        let front = columns.drop_last();
        let last = columns.len() - 1;
        lemma_most_cells_is_longest(front);
        assert forall|c: int| 0 <= c < columns.len() implies (#[trigger] columns[c]).1@.len()
            <= most_cells(columns) by {
            if c < last {
                assert(front[c] == columns[c]);
            }
        }
        if most_cells(columns) != 0 {
            if most_cells(columns) == columns[last].1@.len() {
                assert(columns[last].1@.len() == most_cells(columns));
            } else {
                let c = choose|c: int|
                    0 <= c < front.len() && (#[trigger] front[c]).1@.len() == most_cells(front);
                assert(front[c] == columns[c]);
                assert(columns[c].1@.len() == most_cells(columns));
            }
        }
    }
}

/// The diagram has the title, the header line, the rule line, and one line
/// for each cell of its longest column: no more lines, and no column has a
/// cell below the last line. Every line after the title holds one slot of
/// the same width per column.
pub proof fn lemma_diagram_rows(columns: Seq<DiagramColumn>)
    ensures
        diagram_text(columns).len() >= 5,
        diagram_text(columns)[0] == seq!['N', 'e', 't', 'w', 'o', 'r', 'k'],
        diagram_text(columns)[1] == seq!['=', '=', '=', '=', '=', '=', '='],
        diagram_text(columns)[2].len() == 0,
        forall|c: int|
            0 <= c < columns.len() ==> (#[trigger] columns[c]).1@.len() <= diagram_text(columns).len()
                - 5,
        diagram_text(columns).len() == 5 || exists|c: int|
            0 <= c < columns.len() && (#[trigger] columns[c]).1@.len() == diagram_text(columns).len()
                - 5,
        forall|i: int|
            3 <= i < diagram_text(columns).len() ==> (#[trigger] diagram_text(columns)[i]).len()
                == columns.len() * (widest_cell(columns) + 4),
{
    let text = diagram_text(columns);
    let width = widest_cell(columns) + 4;
    lemma_most_cells_is_longest(columns);
    lemma_widest_cell_bounds(columns);
    assert(text[1] =~= seq!['=', '=', '=', '=', '=', '=', '=']);
    assert forall|i: int| 3 <= i < text.len() implies (#[trigger] text[i]).len() == columns.len()
        * width by {
        if i == 3 {
            lemma_joined_len(columns, width, |column: DiagramColumn| column.0@);
        } else if i == 4 {
            lemma_joined_len(columns, width, |column: DiagramColumn| repeated('-', column.0@.len()));
        } else {
            let row = i - 5;
            let text_of = |column: DiagramColumn| cell_text(column, row);
            assert forall|c: int| 0 <= c < columns.len() implies text_of(#[trigger] columns[c]).len()
                <= width by {
                if 0 <= row < columns[c].1@.len() {
                    assert(columns[c].1@[row]@.len() <= widest_cell(columns));
                }
            }
            lemma_joined_len(columns, width, text_of);
            assert(text[i] == row_line(columns, width, row));
        }
    }
}

/// Every header and every cell is shown in its column's slot, left-aligned
/// and padded with spaces: character `k` of the slot of column `c` is the
/// header's character `k` on the header line, a dash under each header
/// character on the rule line, and on the line of row `r` the character `k`
/// of the column's cell `r` (spaces where the text or the column has ended).
pub proof fn lemma_diagram_shows_every_text(columns: Seq<DiagramColumn>, c: int, k: int)
    requires
        0 <= c < columns.len(),
        0 <= k < widest_cell(columns) + 4,
    ensures
        ({
            let text = diagram_text(columns);
            let width = widest_cell(columns) + 4;
            let header = columns[c].0@;
            let cells = columns[c].1@;
            &&& text[3][c * width + k] == (if k < header.len() {
                header[k]
            } else {
                ' '
            })
            &&& text[4][c * width + k] == (if k < header.len() {
                '-'
            } else {
                ' '
            })
            &&& forall|r: int|
                0 <= r < text.len() - 5 ==> #[trigger] text[5 + r][c * width + k] == (if r
                    < cells.len() && k < cells[r]@.len() {
                    cells[r]@[k]
                } else {
                    ' '
                })
        }),
{
    let text = diagram_text(columns);
    let width = widest_cell(columns) + 4;
    lemma_widest_cell_bounds(columns);
    let header_of = |column: DiagramColumn| column.0@;
    let rule_of = |column: DiagramColumn| repeated('-', column.0@.len());
    assert forall|i: int| 0 <= i < columns.len() implies header_of(#[trigger] columns[i]).len()
        <= width by {
        assert(columns[i].0@.len() <= widest_cell(columns));
    }
    assert forall|i: int| 0 <= i < columns.len() implies rule_of(#[trigger] columns[i]).len()
        <= width by {
        assert(columns[i].0@.len() <= widest_cell(columns));
    }
    lemma_joined_at(columns, width, header_of, c, k);
    lemma_joined_at(columns, width, rule_of, c, k);
    assert(text[3] == joined(columns, width, header_of));
    assert(text[4] == joined(columns, width, rule_of));
    assert forall|r: int| 0 <= r < text.len() - 5 implies #[trigger] text[5 + r][c * width + k]
        == (if r < columns[c].1@.len() && k < columns[c].1@[r]@.len() {
        columns[c].1@[r]@[k]
    } else {
        ' '
    }) by {
        let cell_of = |column: DiagramColumn| cell_text(column, r);
        assert forall|i: int| 0 <= i < columns.len() implies cell_of(#[trigger] columns[i]).len()
            <= width by {
            if 0 <= r < columns[i].1@.len() {
                assert(columns[i].1@[r]@.len() <= widest_cell(columns));
            }
        }
        lemma_joined_at(columns, width, cell_of, c, k);
        assert(text[5 + r] == joined(columns, width, cell_of));
    }
}

/// Appends `n` copies of `c`.
fn push_repeated(s: &mut String, c: char, n: usize)
    ensures
        final(s)@ == old(s)@ + repeated(c, n as nat),
{
    let mut i: usize = 0;
    while i < n
        invariant
            i <= n,
            s@ == old(s)@ + repeated(c, i as nat),
        decreases n - i,
    {
        push_char(s, c);
        i = i + 1;
        assert(s@ =~= old(s)@ + repeated(c, i as nat));
    }
}

/// Appends `text` padded with spaces to `width` characters.
fn push_padded(s: &mut String, text: &str, width: usize)
    ensures
        final(s)@ == old(s)@ + padded(text@, width as nat),
{
    let len = text.unicode_len();
    s.append(text);
    if len < width {
        push_repeated(s, ' ', width - len);
    }
    assert(s@ =~= old(s)@ + padded(text@, width as nat));
}

/// The longest text of `texts`, in characters.
fn widest_of(texts: &Vec<String>) -> (widest: usize)
    ensures
        widest == widest_text(texts@),
{
    let mut widest: usize = 0;
    let mut i: usize = 0;
    while i < texts.len()
        invariant
            i <= texts@.len(),
            widest == widest_text(texts@.subrange(0, i as int)),
        decreases texts@.len() - i,
    {
        let len = texts[i].as_str().unicode_len();
        proof {
            assert(texts@.subrange(0, i + 1).drop_last() =~= texts@.subrange(0, i as int));
        }
        if len > widest {
            widest = len;
        }
        i = i + 1;
    }
    assert(texts@.subrange(0, texts@.len() as int) =~= texts@);
    widest
}

/// The lines that show `columns` (see `diagram_text`). No text may be within
/// four characters of the largest `usize`.
pub fn diagram_lines(columns: &Vec<DiagramColumn>) -> (lines: Vec<String>)
    requires
        widest_cell(columns@) + 4 <= usize::MAX,
    ensures
        lines@.len() == diagram_text(columns@).len(),
        forall|i: int| 0 <= i < lines@.len() ==> #[trigger] lines@[i]@ == diagram_text(columns@)[i],
{
    let mut widest: usize = 0;
    let mut most: usize = 0;
    let mut c: usize = 0;
    while c < columns.len()
        invariant
            c <= columns@.len(),
            widest == widest_cell(columns@.subrange(0, c as int)),
            most == most_cells(columns@.subrange(0, c as int)),
        decreases columns@.len() - c,
    {
        let header_len = columns[c].0.as_str().unicode_len();
        let cells_widest = widest_of(&columns[c].1);
        proof {
            assert(columns@.subrange(0, c + 1).drop_last() =~= columns@.subrange(0, c as int));
        }
        let column_widest = if header_len >= cells_widest {
            header_len
        } else {
            cells_widest
        };
        if column_widest > widest {
            widest = column_widest;
        }
        if columns[c].1.len() > most {
            most = columns[c].1.len();
        }
        c = c + 1;
    }
    assert(columns@.subrange(0, columns@.len() as int) =~= columns@);
    let width = widest + 4;
    let ghost text = diagram_text(columns@);

    let mut header = String::new();
    let mut rule = String::new();
    let mut c: usize = 0;
    while c < columns.len()
        invariant
            c <= columns@.len(),
            header@ == header_line(columns@.subrange(0, c as int), width as nat),
            rule@ == rule_line(columns@.subrange(0, c as int), width as nat),
        decreases columns@.len() - c,
    {
        let name = columns[c].0.as_str();
        let name_len = name.unicode_len();
        push_padded(&mut header, name, width);
        let ghost before = rule@;
        push_repeated(&mut rule, '-', name_len);
        if name_len < width {
            push_repeated(&mut rule, ' ', width - name_len);
        }
        proof {
            let prefix = columns@.subrange(0, c + 1);
            assert(prefix.drop_last() =~= columns@.subrange(0, c as int));
            assert(prefix.last() == columns@[c as int]);
            assert(rule@ =~= before + padded(repeated('-', name_len as nat), width as nat));
        }
        c = c + 1;
    }

    let mut lines: Vec<String> = Vec::new();
    lines.push(String::from_str("Network"));
    lines.push(String::from_str("======="));
    lines.push(String::new());
    proof {
        reveal_strlit("Network");
        reveal_strlit("=======");
        assert(lines@[0]@ =~= text[0]);
        assert(lines@[1]@ =~= text[1]);
        assert(lines@[2]@ =~= text[2]);
    }
    lines.push(header);
    lines.push(rule);

    let mut row: usize = 0;
    while row < most
        invariant
            row <= most,
            most == most_cells(columns@),
            width == widest_cell(columns@) + 4,
            text == diagram_text(columns@),
            lines@.len() == 5 + row,
            forall|i: int| 0 <= i < lines@.len() ==> #[trigger] lines@[i]@ == text[i],
        decreases most - row,
    {
        let mut line = String::new();
        let mut c: usize = 0;
        while c < columns.len()
            invariant
                c <= columns@.len(),
                line@ == row_line(columns@.subrange(0, c as int), width as nat, row as int),
            decreases columns@.len() - c,
        {
            let cells = &columns[c].1;
            if row < cells.len() {
                push_padded(&mut line, cells[row].as_str(), width);
            } else {
                push_padded(&mut line, "", width);
                proof {
                    reveal_strlit("");
                }
            }
            proof {
                let prefix = columns@.subrange(0, c + 1);
                assert(prefix.drop_last() =~= columns@.subrange(0, c as int));
                assert(prefix.last() == columns@[c as int]);
            }
            c = c + 1;
        }
        assert(columns@.subrange(0, columns@.len() as int) =~= columns@);
        lines.push(line);
        row = row + 1;
    }
    lines
}

} // verus!
