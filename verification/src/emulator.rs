//! The emulated terminal, behind the crate `vt100`.
use vstd::prelude::*;

verus! {

/// A colour of the emulated terminal.
#[derive(Debug, Clone, Copy, PartialEq, Eq, Structural)]
pub enum VtColor {
    Default,
    Idx(u8),
    Rgb(u8, u8, u8),
}

/// A cell of the emulated terminal.
#[derive(Debug, PartialEq, Eq)]
pub struct VtCell {
    pub text: String,
    pub fg: VtColor,
    pub bg: VtColor,
    pub bold: bool,
    pub dim: bool,
    pub italic: bool,
    pub underline: bool,
    pub inverse: bool,
    pub wide_continuation: bool,
}

/// What a cell of the emulated terminal shows.
#[verifier::ext_equal]
pub struct VtCellView {
    pub text: Seq<char>,
    pub fg: VtColor,
    pub bg: VtColor,
    pub bold: bool,
    pub dim: bool,
    pub italic: bool,
    pub underline: bool,
    pub inverse: bool,
    pub wide_continuation: bool,
}

impl View for VtCell {
    type V = VtCellView;

    open spec fn view(&self) -> VtCellView {
        VtCellView {
            text: self.text@,
            fg: self.fg,
            bg: self.bg,
            bold: self.bold,
            dim: self.dim,
            italic: self.italic,
            underline: self.underline,
            inverse: self.inverse,
            wide_continuation: self.wide_continuation,
        }
    }
}

/// What a cell that may be missing shows.
pub open spec fn optional_cell(cell: Option<VtCell>) -> Option<VtCellView> {
    match cell {
        Some(inner) => Some(inner@),
        None => None,
    }
}

/// An emulated terminal.
#[verifier::external_body]
pub struct Emulator {
    parser: vt100::Parser,
}

/// The rows and columns that a terminal was made with.
pub uninterp spec fn size_of(emulator: Emulator) -> (u16, u16);

/// The chunks of output that a terminal has taken in.
pub uninterp spec fn input_of(emulator: Emulator) -> Seq<Seq<u8>>;

/// What a cell shows, on a terminal of some rows and columns, after some chunks of output.
pub uninterp spec fn cell_after(
    rows: u16,
    cols: u16,
    input: Seq<Seq<u8>>,
    row: u16,
    col: u16,
) -> Option<VtCellView>;

/// The row and column of the cursor, on a terminal of some rows and columns, after some chunks of
/// output.
pub uninterp spec fn cursor_after(rows: u16, cols: u16, input: Seq<Seq<u8>>) -> (u16, u16);

/// Whether the cursor is hidden, on a terminal of some rows and columns, after some chunks of
/// output.
pub uninterp spec fn hidden_after(rows: u16, cols: u16, input: Seq<Seq<u8>>) -> bool;

/// Whether a terminal of this size can be emulated, whatever the output is: a line that is full
/// goes on in a row of its own, the widest character has room, and a step to the next tab stop does
/// not leave the range of columns.
pub open spec fn emulates(rows: u16, cols: u16) -> bool {
    rows >= 2 && 3 <= cols <= 65527
}

/// Whether a terminal of this size can be emulated.
pub fn can_emulate(rows: u16, cols: u16) -> (r: bool)
    ensures
        r == emulates(rows, cols),
{
    rows >= 2 && 3 <= cols && cols <= 65527
}

impl Emulator {
    /// `vt100::Parser::new` without scrollback: a terminal of some rows and columns that has taken
    /// in nothing. Without a row the call overflows.
    #[verifier::external_body]
    fn new(rows: u16, cols: u16) -> (r: Emulator)
        requires
            emulates(rows, cols),
        ensures
            size_of(r) == (rows, cols),
            input_of(r) == Seq::<Seq<u8>>::empty(),
    {
        Emulator { parser: vt100::Parser::new(rows, cols, 0) }
    }

    /// `vt100::Parser::process`: takes in a chunk of output. The size stays. The call fails where
    /// the only row of a terminal is full and text follows, where a character of up to three
    /// columns is wider than the terminal, and where a tab comes in the last columns of the widest
    /// terminals.
    #[verifier::external_body]
    fn process(&mut self, bytes: &[u8])
        requires
            emulates(size_of(*old(self)).0, size_of(*old(self)).1),
        ensures
            size_of(*final(self)) == size_of(*old(self)),
            input_of(*final(self)) == input_of(*old(self)).push(bytes@),
    {
        self.parser.process(bytes);
    }

    /// `vt100::Screen::size`: the rows and columns.
    #[verifier::external_body]
    pub(crate) fn size(&self) -> (r: (u16, u16))
        ensures
            r == size_of(*self),
    {
        self.parser.screen().size()
    }

    /// `vt100::Screen::cell`, with the text, the colours and the attributes of the cell: what it
    /// shows after all that the terminal has taken in. There are cells in the rows and columns of
    /// the terminal and nowhere else.
    #[verifier::external_body]
    pub(crate) fn cell(&self, row: u16, col: u16) -> (r: Option<VtCell>)
        ensures
            optional_cell(r) == cell_after(
                size_of(*self).0,
                size_of(*self).1,
                input_of(*self),
                row,
                col,
            ),
            r is Some == (size_of(*self).0 > row && size_of(*self).1 > col),
    {
        let cell = self.parser.screen().cell(row, col)?;
        let [fg, bg] = [cell.fgcolor(), cell.bgcolor()].map(|color| match color {
            vt100::Color::Default => VtColor::Default,
            vt100::Color::Idx(idx) => VtColor::Idx(idx),
            vt100::Color::Rgb(r, g, b) => VtColor::Rgb(r, g, b),
        });
        let text = cell.contents().to_string();
        let (bold, dim, italic) = (cell.bold(), cell.dim(), cell.italic());
        let (underline, inverse) = (cell.underline(), cell.inverse());
        let wide_continuation = cell.is_wide_continuation();
        Some(VtCell { text, fg, bg, bold, dim, italic, underline, inverse, wide_continuation })
    }

    /// `vt100::Screen::cursor_position`: the row and column of the cursor after all that the
    /// terminal has taken in.
    #[verifier::external_body]
    pub(crate) fn cursor_position(&self) -> (r: (u16, u16))
        ensures
            r == cursor_after(size_of(*self).0, size_of(*self).1, input_of(*self)),
    {
        self.parser.screen().cursor_position()
    }

    /// `vt100::Screen::hide_cursor`: whether the cursor is hidden after all that the terminal has
    /// taken in.
    #[verifier::external_body]
    pub(crate) fn hide_cursor(&self) -> (r: bool)
        ensures
            r == hidden_after(size_of(*self).0, size_of(*self).1, input_of(*self)),
    {
        self.parser.screen().hide_cursor()
    }

    /// A terminal that has taken in nothing, if one of this size can be emulated.
    pub fn open(rows: u16, cols: u16) -> (r: Option<Emulator>)
        ensures
            r is Some <==> emulates(rows, cols),
            r is Some ==> size_of(r->0) == (rows, cols) && input_of(r->0) == Seq::<
                Seq<u8>,
            >::empty(),
    {
        if can_emulate(rows, cols) {
            Some(Emulator::new(rows, cols))
        } else {
            None
        }
    }

    /// Takes in a chunk of output.
    pub fn feed(&mut self, bytes: &[u8])
        requires
            old(self).well_formed(),
        ensures
            final(self).well_formed(),
            size_of(*final(self)) == size_of(*old(self)),
            input_of(*final(self)) == input_of(*old(self)).push(bytes@),
    {
        self.process(bytes);
    }

    /// Whether the terminal has a size that can be emulated. All that are opened have.
    pub open spec fn well_formed(self) -> bool {
        emulates(size_of(self).0, size_of(self).1)
    }
}

} // verus!
