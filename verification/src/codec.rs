use vstd::prelude::*;

use vstd::string::StrSliceExecFns;

use crate::board::Board;
use crate::board::Cell;
use crate::error::Error;

verus! {

/// The cell a token character stands for: `c` a general cell, `h` a wide
/// domino cell, `v` a tall domino cell, `p` a pawn, `x` an empty cell; any
/// other non-blank character is no token.
pub open spec fn token_cell(c: char) -> Option<Cell> {
    if c == 'c' {
        Some(Cell::General)
    } else if c == 'h' {
        Some(Cell::Horizontal)
    } else if c == 'v' {
        Some(Cell::Vertical)
    } else if c == 'p' {
        Some(Cell::Pawn)
    } else if c == 'x' {
        Some(Cell::Empty)
    } else {
        None
    }
}

/// The blank characters that may surround a line's tokens.
pub open spec fn is_blank(c: char) -> bool {
    c == ' ' || c == '\t' || c == '\r'
}

/// The state of the layout reader: the cells collected so far in row-major
/// order (the k-th token of the r-th non-blank line lands at grid cell
/// (k, r)), the completed rows, the tokens of the current line, whether a
/// blank was seen after this line's tokens, and the first error met.
pub struct ParseSt {
    pub cells: Seq<Cell>,
    pub row: int,
    pub col: int,
    pub gap: bool,
    pub err: Option<Error>,
}

/// One character of the layout: a newline closes a non-blank line, which must
/// hold exactly 4 tokens; blanks are skipped at a line's edges; a token after
/// an inner blank, or any non-token character, is refused; a token beyond 4
/// columns or 5 rows is a size error; otherwise the token's cell is appended.
pub open spec fn parse_step(st: ParseSt, c: char) -> ParseSt {
    if st.err is Some {
        st
    } else if c == '\n' {
        if st.col > 0 && st.col != 4 {
            ParseSt { cells: st.cells, row: st.row, col: st.col, gap: st.gap, err: Some(Error::BadSize) }
        } else if st.col > 0 {
            ParseSt { cells: st.cells, row: st.row + 1, col: 0, gap: false, err: None }
        } else {
            ParseSt { cells: st.cells, row: st.row, col: 0, gap: false, err: None }
        }
    } else if is_blank(c) {
        if st.col > 0 {
            ParseSt { cells: st.cells, row: st.row, col: st.col, gap: true, err: None }
        } else {
            st
        }
    } else if st.gap {
        ParseSt { cells: st.cells, row: st.row, col: st.col, gap: st.gap, err: Some(Error::BadToken) }
    } else if st.row >= 5 || st.col >= 4 {
        ParseSt { cells: st.cells, row: st.row, col: st.col, gap: st.gap, err: Some(Error::BadSize) }
    } else {
        match token_cell(c) {
            Some(cl) => ParseSt {
                cells: st.cells.push(cl),
                row: st.row,
                col: st.col + 1,
                gap: st.gap,
                err: None,
            },
            None => ParseSt {
                cells: st.cells,
                row: st.row,
                col: st.col,
                gap: st.gap,
                err: Some(Error::BadToken),
            },
        }
    }
}

/// The reader's state after the first `n` characters.
pub open spec fn parse_upto(s: Seq<char>, n: int) -> ParseSt
    decreases n,
{
    if n <= 0 {
        ParseSt { cells: seq![], row: 0, col: 0, gap: false, err: None }
    } else {
        parse_step(parse_upto(s, n - 1), s[n - 1])
    }
}

/// What the layout text denotes: its 20 cells in row-major order when it
/// holds exactly 5 non-blank lines of exactly 4 tokens, the first error
/// otherwise.
pub open spec fn parse_chars(s: Seq<char>) -> Result<Seq<Cell>, Error> {
    let st = parse_upto(s, s.len() as int);
    if st.err is Some {
        Err(st.err->0)
    } else if st.col > 0 && st.col != 4 {
        Err(Error::BadSize)
    } else if st.row + (if st.col > 0 {
        1int
    } else {
        0int
    }) != 5 {
        Err(Error::BadSize)
    } else {
        Ok(st.cells)
    }
}

/// An error met while reading taints the rest of the text.
proof fn lemma_parse_err_persists(s: Seq<char>, p: int, q: int)
    requires
        0 <= p <= q,
        parse_upto(s, p).err is Some,
    ensures
        parse_upto(s, q).err == parse_upto(s, p).err,
    decreases q - p,
{
    if p < q {
        lemma_parse_err_persists(s, p, q - 1);
    }
}

/// Parse a textual layout into a board: exactly 5 non-blank lines of exactly
/// 4 tokens each, as `parse_chars` lays down. Spaces, tabs and carriage
/// returns may surround a line's tokens; any other character, a gap inside a
/// line, or any other line or column count is refused.
pub fn parse_state(state: &str) -> (r: Result<Board, Error>)
    ensures
        r matches Ok(b) ==> (parse_chars(state@) matches Ok(cs) && b@ == cs && b.wf()),
        r matches Err(e) ==> (parse_chars(state@) matches Err(e2) && e2 == e),
{
    let n = state.unicode_len();
    let mut cells: Vec<Cell> = Vec::new();
    let mut row: usize = 0;
    let mut col: usize = 0;
    let mut gap = false;
    let mut i: usize = 0;
    while i < n
        invariant
            i <= n,
            n == state@.len(),
            row <= 5,
            col <= 4,
            col > 0 ==> row < 5,
            cells@.len() == 4 * row + col,
            parse_upto(state@, i as int).err is None,
            parse_upto(state@, i as int).cells == cells@,
            parse_upto(state@, i as int).row == row as int,
            parse_upto(state@, i as int).col == col as int,
            parse_upto(state@, i as int).gap == gap,
        decreases n - i,
    {
        let ghost st = parse_upto(state@, i as int);
        proof {
            assert(parse_upto(state@, i as int + 1) == parse_step(st, state@[i as int]));
        }
        let c = state.get_char(i);
        if c == '\n' {
            if col > 0 {
                if col != 4 {
                    proof {
                        lemma_parse_err_persists(state@, i as int + 1, n as int);
                    }
                    return Err(Error::BadSize);
                }
                row = row + 1;
                col = 0;
            }
            gap = false;
        } else if c == ' ' || c == '\t' || c == '\r' {
            if col > 0 {
                gap = true;
            }
        } else {
            // a token character
            if gap {
                proof {
                    lemma_parse_err_persists(state@, i as int + 1, n as int);
                }
                return Err(Error::BadToken);
            }
            if row >= 5 || col >= 4 {
                proof {
                    lemma_parse_err_persists(state@, i as int + 1, n as int);
                }
                return Err(Error::BadSize);
            }
            let cell = if c == 'c' {
                Cell::General
            } else if c == 'h' {
                Cell::Horizontal
            } else if c == 'v' {
                Cell::Vertical
            } else if c == 'p' {
                Cell::Pawn
            } else if c == 'x' {
                Cell::Empty
            } else {
                proof {
                    lemma_parse_err_persists(state@, i as int + 1, n as int);
                }
                return Err(Error::BadToken);
            };
            cells.push(cell);
            col = col + 1;
        }
        i = i + 1;
    }
    if col > 0 {
        if col != 4 {
            return Err(Error::BadSize);
        }
        row = row + 1;
    }
    if row != 5 {
        return Err(Error::BadSize);
    }
    Ok(Board { cells })
}

} // verus!
