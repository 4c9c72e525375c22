use vstd::prelude::*;

verus! {

/// The decimal digit for a number below ten.
pub open spec fn digit_char(d: int) -> char {
    if d == 0 {
        '0'
    } else if d == 1 {
        '1'
    } else if d == 2 {
        '2'
    } else if d == 3 {
        '3'
    } else if d == 4 {
        '4'
    } else if d == 5 {
        '5'
    } else if d == 6 {
        '6'
    } else if d == 7 {
        '7'
    } else if d == 8 {
        '8'
    } else {
        '9'
    }
}

/// The mark of a cell: `1` where it is occupied, `0` where it is free.
pub open spec fn cell_char(occupied: bool) -> char {
    if occupied {
        '1'
    } else {
        '0'
    }
}

/// The marks of the first `count` cells of a row, each after a blank.
pub open spec fn cells_text(bits: Seq<bool>, row: int, count: int) -> Seq<char>
    decreases count,
{
    if count <= 0 {
        Seq::empty()
    } else {
        cells_text(bits, row, count - 1).push(' ').push(cell_char(bits[10 * row + count - 1]))
    }
}

/// The line of a row: its number, a bar, and the marks of its ten cells.
pub open spec fn row_line(bits: Seq<bool>, row: int) -> Seq<char> {
    seq![digit_char(row), ' ', '|'] + cells_text(bits, row, 10)
}

/// The drawing of a board, line by line: the label of the vertical axis,
/// the rows from the ninth down to the first, a rule with the label of the
/// horizontal axis, and the numbers of the columns.
pub open spec fn drawing(bits: Seq<bool>) -> Seq<Seq<char>> {
    seq![" (Y)"@] + Seq::new(10, |k: int| row_line(bits, 9 - k)) + seq![
        "   -------------------- (X)"@,
        "    0 1 2 3 4 5 6 7 8 9"@,
    ]
}

/// Appends a character to a string: `String::push` of the standard
/// library, which is taken to put the character after those that are there.
#[verifier::external_body]
fn push_char(text: &mut String, c: char)
    ensures
        final(text)@ == old(text)@.push(c),
{
    text.push(c);
}

fn digit(d: usize) -> (c: char)
    requires
        d < 10,
    ensures
        c == digit_char(d as int),
{
    if d == 0 {
        '0'
    } else if d == 1 {
        '1'
    } else if d == 2 {
        '2'
    } else if d == 3 {
        '3'
    } else if d == 4 {
        '4'
    } else if d == 5 {
        '5'
    } else if d == 6 {
        '6'
    } else if d == 7 {
        '7'
    } else if d == 8 {
        '8'
    } else {
        '9'
    }
}

/// Draws one row of a board.
fn render_row(bits: &[bool; 100], row: usize) -> (line: String)
    requires
        row < 10,
    ensures
        line@ == row_line(bits@, row as int),
{
    let mut line = String::new();
    push_char(&mut line, digit(row));
    push_char(&mut line, ' ');
    push_char(&mut line, '|');
    let mut j: usize = 0;
    while j < 10
        invariant
            j <= 10,
            row < 10,
            line@ == seq![digit_char(row as int), ' ', '|'] + cells_text(bits@, row as int, j as int),
        decreases 10 - j,
    {
        push_char(&mut line, ' ');
        push_char(&mut line, if bits[10 * row + j] { '1' } else { '0' });
        j += 1;
        proof {
            assert(line@ =~= seq![digit_char(row as int), ' ', '|'] + cells_text(
                bits@,
                row as int,
                j as int,
            ));
        }
    }
    line
}

/// Draws a board from its bitmap.
pub fn render_bits(bits: &[bool; 100]) -> (lines: Vec<String>)
    ensures
        lines@.len() == 13,
        forall|k: int| 0 <= k < 13 ==> (#[trigger] lines@[k])@ == drawing(bits@)[k],
{
    let mut lines: Vec<String> = Vec::new();
    lines.push(" (Y)".to_owned());
    let mut k: usize = 0;
    while k < 10
        invariant
            k <= 10,
            lines@.len() == 1 + k,
            lines@[0]@ == " (Y)"@,
            forall|j: int| 0 <= j < k ==> (#[trigger] lines@[1 + j])@ == row_line(bits@, 9 - j),
        decreases 10 - k,
    {
        let line = render_row(bits, 9 - k);
        lines.push(line);
        k += 1;
    }
    lines.push("   -------------------- (X)".to_owned());
    lines.push("    0 1 2 3 4 5 6 7 8 9".to_owned());
    proof {
        assert forall|k: int| 0 <= k < 13 implies (#[trigger] lines@[k])@ == drawing(bits@)[k] by {
            if 1 <= k < 11 {
                assert(lines@[1 + (k - 1)]@ == row_line(bits@, 9 - (k - 1)));
            }
        }
    }
    lines
}

} // verus!
