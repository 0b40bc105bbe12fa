//! The text in an editor: its lines, and a cursor that stands in one of them.
use crate::text;
use vstd::prelude::*;

verus! {

/// What an editor holds: its lines, and where the cursor stands.
#[verifier::ext_equal]
pub struct BufferView {
    pub lines: Seq<Seq<char>>,
    pub row: int,
    pub col: int,
}

/// The text in an editor.
#[derive(Debug)]
pub struct NoteBuffer {
    lines: Vec<String>,
    cursor_row: usize,
    cursor_col: usize,
}

impl View for NoteBuffer {
    type V = BufferView;

    closed spec fn view(&self) -> BufferView {
        BufferView {
            lines: text::views(self.lines@),
            row: self.cursor_row as int,
            col: self.cursor_col as int,
        }
    }
}

/// Whether the cursor stands in a line, or right behind it.
pub open spec fn is_buffer(b: BufferView) -> bool {
    &&& 0 <= b.row < b.lines.len()
    &&& 0 <= b.col <= b.lines[b.row].len()
}

/// `s` without the carriage returns and line feeds it ends with.
pub open spec fn without_line_ends(s: Seq<char>) -> Seq<char>
    decreases s.len(),
{
    if s.len() > 0 && (s.last() == '\r' || s.last() == '\n') {
        without_line_ends(s.drop_last())
    } else {
        s
    }
}

/// A buffer with the line of the cursor replaced and the cursor moved.
pub open spec fn with_line(b: BufferView, line: Seq<char>, col: int) -> BufferView {
    BufferView { lines: b.lines.update(b.row, line), col, ..b }
}

/// `b` after the character `c` was typed.
pub open spec fn typed(b: BufferView, c: char) -> BufferView {
    let line = b.lines[b.row];
    with_line(b, line.take(b.col).push(c) + line.skip(b.col), b.col + 1)
}

/// `b` after the line was broken at the cursor.
pub open spec fn broken(b: BufferView) -> BufferView {
    let line = b.lines[b.row];
    BufferView {
        lines: b.lines.update(b.row, line.take(b.col)).insert(b.row + 1, line.skip(b.col)),
        row: b.row + 1,
        col: 0,
    }
}

/// Whether anything stands before the cursor.
pub open spec fn can_erase(b: BufferView) -> bool {
    b.col > 0 || b.row > 0
}

/// `b` after the character before the cursor was taken out; at the start of a
/// line, after the line was joined to the one before.
pub open spec fn erased(b: BufferView) -> BufferView {
    let line = b.lines[b.row];
    if b.col > 0 {
        with_line(b, line.take(b.col - 1) + line.skip(b.col), b.col - 1)
    } else if b.row > 0 {
        let before = b.lines[b.row - 1];
        BufferView {
            lines: b.lines.remove(b.row).update(b.row - 1, before + line),
            row: b.row - 1,
            col: before.len() as int,
        }
    } else {
        b
    }
}

/// The column of the cursor in the line `row`: as far as the line goes.
pub open spec fn col_in(b: BufferView, row: int) -> int {
    if b.col <= b.lines[row].len() {
        b.col
    } else {
        b.lines[row].len() as int
    }
}

/// `b` after the cursor was moved by one character to the left, over the start
/// of a line to the end of the one before.
pub open spec fn moved_left(b: BufferView) -> BufferView {
    if b.col > 0 {
        BufferView { col: b.col - 1, ..b }
    } else if b.row > 0 {
        BufferView { row: b.row - 1, col: b.lines[b.row - 1].len() as int, ..b }
    } else {
        b
    }
}

/// `b` after the cursor was moved by one character to the right, over the end
/// of a line to the start of the next.
pub open spec fn moved_right(b: BufferView) -> BufferView {
    if b.col < b.lines[b.row].len() {
        BufferView { col: b.col + 1, ..b }
    } else if b.row + 1 < b.lines.len() {
        BufferView { row: b.row + 1, col: 0, ..b }
    } else {
        b
    }
}

/// `b` after the cursor was moved up by a line.
pub open spec fn moved_up(b: BufferView) -> BufferView {
    if b.row == 0 {
        b
    } else {
        BufferView { row: b.row - 1, col: col_in(b, b.row - 1), ..b }
    }
}

/// `b` after the cursor was moved down by a line.
pub open spec fn moved_down(b: BufferView) -> BufferView {
    if b.row + 1 >= b.lines.len() {
        b
    } else {
        BufferView { row: b.row + 1, col: col_in(b, b.row + 1), ..b }
    }
}

/// How many characters a text has.
pub fn char_count(s: &str) -> (n: usize)
    ensures
        n == s@.len(),
{
    let v = text::chars(s);
    v.len()
}

impl NoteBuffer {
    #[verifier::type_invariant]
    closed spec fn inv(self) -> bool {
        is_buffer(self@)
    }

    /// Nothing in an editor.
    pub fn new() -> (b: Self)
        ensures
            b@ == (BufferView { lines: seq![seq![]], row: 0, col: 0 }),
    {
        let mut lines: Vec<String> = Vec::new();
        lines.push(String::new());
        assert(text::views(lines@) =~= seq![seq![]]);
        NoteBuffer { lines, cursor_row: 0, cursor_col: 0 }
    }

    /// A text in an editor, without the line ends behind it; the cursor stands
    /// at its start.
    pub fn from_string(s: String) -> (b: Self)
        ensures
            b@ == (BufferView {
                lines: text::split_of(without_line_ends(s@), '\n'),
                row: 0,
                col: 0,
            }),
    {
        let v = text::chars(s.as_str());
        let mut n: usize = v.len();
        assert(v@.take(n as int) =~= v@);
        while n > 0 && (v[n - 1] == '\r' || v[n - 1] == '\n')
            invariant
                n <= v.len(),
                without_line_ends(v@.take(n as int)) == without_line_ends(v@),
            decreases n,
        {
            assert(v@.take(n as int).drop_last() =~= v@.take(n - 1));
            n -= 1;
        }
        let body = text::string_of(&v, 0, n);
        assert(body@ =~= v@.take(n as int));
        let lines = text::split(body.as_str(), '\n');
        NoteBuffer { lines, cursor_row: 0, cursor_col: 0 }
    }

    /// The text in the editor.
    pub fn as_string(&self) -> (out: String)
        ensures
            out@ == text::joined(self@.lines, seq!['\n']),
    {
        proof {
            reveal_strlit("\n");
            assert("\n"@ =~= seq!['\n']);
        }
        text::join(&self.lines, "\n")
    }

    /// The lines in the editor.
    pub fn lines(&self) -> (v: &Vec<String>)
        ensures
            text::views(v@) == self@.lines,
    {
        &self.lines
    }

    /// The line and the column of the cursor.
    pub fn cursor(&self) -> (p: (usize, usize))
        ensures
            p.0 == self@.row,
            p.1 == self@.col,
            is_buffer(self@),
    {
        proof {
            use_type_invariant(self);
        }
        (self.cursor_row, self.cursor_col)
    }

    /// Puts `c` before the cursor.
    pub fn insert_char(&mut self, c: char)
        ensures
            final(self)@ == typed(old(self)@, c),
    {
        proof {
            use_type_invariant(&*self);
        }
        let ghost b = self@;
        let mut taken = NoteBuffer::new();
        std::mem::swap(self, &mut taken);
        let NoteBuffer { mut lines, cursor_row, cursor_col } = taken;
        assert(text::views(lines@)[cursor_row as int] == lines@[cursor_row as int]@);
        let mut v = text::chars(lines[cursor_row].as_str());
        let ghost before = v@;
        v.insert(cursor_col, c);
        let n: usize = v.len();
        let line = text::string_of(&v, 0, n);
        assert(line@ =~= before.take(cursor_col as int).push(c) + before.skip(cursor_col as int));
        assert(cursor_col < n);
        lines.set(cursor_row, line);
        assert(text::views(lines@) =~= b.lines.update(cursor_row as int, line@));
        *self = NoteBuffer { lines, cursor_row, cursor_col: cursor_col + 1 };
    }

    /// Breaks the line at the cursor.
    pub fn insert_newline(&mut self)
        ensures
            final(self)@ == broken(old(self)@),
    {
        proof {
            use_type_invariant(&*self);
        }
        let ghost b = self@;
        let mut taken = NoteBuffer::new();
        std::mem::swap(self, &mut taken);
        let NoteBuffer { mut lines, cursor_row, cursor_col } = taken;
        assert(text::views(lines@)[cursor_row as int] == lines@[cursor_row as int]@);
        let v = text::chars(lines[cursor_row].as_str());
        let line = text::string_of(&v, 0, cursor_col);
        let rest = text::string_of(&v, cursor_col, v.len());
        proof {
            assert(line@ =~= v@.take(cursor_col as int));
            assert(rest@ =~= v@.skip(cursor_col as int));
        }
        assert(cursor_row < lines.len());
        lines.set(cursor_row, line);
        lines.insert(cursor_row + 1, rest);
        assert(text::views(lines@) =~= broken(b).lines);
        *self = NoteBuffer { lines, cursor_row: cursor_row + 1, cursor_col: 0 };
    }

    /// Takes the character before the cursor out, or joins the line to the one
    /// before, and says whether there was anything to take out.
    pub fn backspace(&mut self) -> (r: bool)
        ensures
            final(self)@ == erased(old(self)@),
            r == can_erase(old(self)@),
    {
        proof {
            use_type_invariant(&*self);
        }
        let ghost b = self@;
        if self.cursor_col == 0 && self.cursor_row == 0 {
            return false;
        }
        let mut taken = NoteBuffer::new();
        std::mem::swap(self, &mut taken);
        let NoteBuffer { mut lines, cursor_row, cursor_col } = taken;
        assert(text::views(lines@)[cursor_row as int] == lines@[cursor_row as int]@);
        if cursor_col > 0 {
            let v = text::chars(lines[cursor_row].as_str());
            let mut line = text::string_of(&v, 0, cursor_col - 1);
            let rest = text::string_of(&v, cursor_col, v.len());
            line.append(rest.as_str());
            assert(line@ =~= v@.take(cursor_col - 1) + v@.skip(cursor_col as int));
            lines.set(cursor_row, line);
            assert(text::views(lines@) =~= b.lines.update(cursor_row as int, line@));
            *self = NoteBuffer { lines, cursor_row, cursor_col: cursor_col - 1 };
        } else {
            assert(text::views(lines@)[cursor_row - 1] == lines@[cursor_row - 1]@);
            let current = lines.remove(cursor_row);
            let mut before = lines[cursor_row - 1].clone();
            let n: usize = char_count(before.as_str());
            before.append(current.as_str());
            lines.set(cursor_row - 1, before);
            assert(text::views(lines@) =~= erased(b).lines);
            *self = NoteBuffer { lines, cursor_row: cursor_row - 1, cursor_col: n };
        }
        true
    }

    /// Puts the cursor on another line or column.
    fn place(&mut self, row: usize, col: usize)
        requires
            row < old(self)@.lines.len(),
            col <= old(self)@.lines[row as int].len(),
        ensures
            final(self)@ == (BufferView { row: row as int, col: col as int, ..old(self)@ }),
    {
        let mut taken = NoteBuffer::new();
        std::mem::swap(self, &mut taken);
        let NoteBuffer { lines, cursor_row, cursor_col } = taken;
        *self = NoteBuffer { lines, cursor_row: row, cursor_col: col };
    }

    /// Moves the cursor by one character to the left.
    pub fn move_left(&mut self)
        ensures
            final(self)@ == moved_left(old(self)@),
    {
        proof {
            use_type_invariant(&*self);
        }
        if self.cursor_col > 0 {
            self.place(self.cursor_row, self.cursor_col - 1);
        } else if self.cursor_row > 0 {
            let row: usize = self.cursor_row - 1;
            assert(self@.lines[row as int] == self.lines@[row as int]@);
            let col: usize = char_count(self.lines[row].as_str());
            self.place(row, col);
        }
    }

    /// Moves the cursor by one character to the right.
    pub fn move_right(&mut self)
        ensures
            final(self)@ == moved_right(old(self)@),
    {
        proof {
            use_type_invariant(&*self);
        }
        let row: usize = self.cursor_row;
        assert(self@.lines[row as int] == self.lines@[row as int]@);
        let n: usize = char_count(self.lines[row].as_str());
        if self.cursor_col < n {
            self.place(row, self.cursor_col + 1);
        } else if row < self.lines.len() - 1 {
            self.place(row + 1, 0);
        }
    }

    /// The column of the cursor in another line.
    fn col_of(&self, row: usize) -> (col: usize)
        requires
            row < self@.lines.len(),
        ensures
            col == col_in(self@, row as int),
    {
        assert(self@.lines[row as int] == self.lines@[row as int]@);
        let n: usize = char_count(self.lines[row].as_str());
        if self.cursor_col <= n {
            self.cursor_col
        } else {
            n
        }
    }

    /// Moves the cursor up by a line.
    pub fn move_up(&mut self)
        ensures
            final(self)@ == moved_up(old(self)@),
    {
        proof {
            use_type_invariant(&*self);
        }
        if self.cursor_row > 0 {
            let row: usize = self.cursor_row - 1;
            let col: usize = self.col_of(row);
            self.place(row, col);
        }
    }

    /// Moves the cursor down by a line.
    pub fn move_down(&mut self)
        ensures
            final(self)@ == moved_down(old(self)@),
    {
        proof {
            use_type_invariant(&*self);
        }
        if self.cursor_row < self.lines.len() - 1 {
            let row: usize = self.cursor_row + 1;
            let col: usize = self.col_of(row);
            self.place(row, col);
        }
    }

    /// Moves the cursor to the start of its line.
    pub fn move_line_start(&mut self)
        ensures
            final(self)@ == (BufferView { col: 0, ..old(self)@ }),
    {
        proof {
            use_type_invariant(&*self);
        }
        self.place(self.cursor_row, 0);
    }

    /// Moves the cursor to the end of its line.
    pub fn move_line_end(&mut self)
        ensures
            final(self)@ == (BufferView {
                col: old(self)@.lines[old(self)@.row].len() as int,
                ..old(self)@
            }),
    {
        proof {
            use_type_invariant(&*self);
        }
        let row: usize = self.cursor_row;
        assert(self@.lines[row as int] == self.lines@[row as int]@);
        let col: usize = char_count(self.lines[row].as_str());
        self.place(row, col);
    }
}

/// Taking out what was just typed, or joining a line that was just broken, can be done
/// and leaves the editor as it was. Only at the very start is there nothing to take
/// out, and nothing changes there.
pub proof fn law_erasing_undoes_typing(b: BufferView, c: char)
    requires
        is_buffer(b),
    ensures
        can_erase(typed(b, c)) && erased(typed(b, c)) == b,
        can_erase(broken(b)) && erased(broken(b)) == b,
        !can_erase(b) <==> b.row == 0 && b.col == 0,
        !can_erase(b) ==> erased(b) == b,
{
    let line = b.lines[b.row];
    let t = typed(b, c);
    assert(t.lines[t.row].take(t.col - 1) + t.lines[t.row].skip(t.col) =~= line);
    assert(erased(t).lines =~= b.lines);
    let n = broken(b);
    assert(n.lines[n.row] == line.skip(b.col));
    assert(n.lines[n.row - 1] == line.take(b.col));
    assert(line.take(b.col) + line.skip(b.col) =~= line);
    assert(erased(n).lines =~= b.lines);
}

/// Moving the cursor keeps it in the text, and the text as it is.
pub proof fn law_moves_keep_the_text(b: BufferView)
    requires
        is_buffer(b),
    ensures
        is_buffer(moved_left(b)) && moved_left(b).lines == b.lines,
        is_buffer(moved_right(b)) && moved_right(b).lines == b.lines,
        is_buffer(moved_up(b)) && moved_up(b).lines == b.lines,
        is_buffer(moved_down(b)) && moved_down(b).lines == b.lines,
{
}

/// A step to the right and one to the left lead back, where there is
/// something to the right.
pub proof fn law_right_and_left(b: BufferView)
    requires
        is_buffer(b),
        moved_right(b) != b,
    ensures
        moved_left(moved_right(b)) == b,
{
}

/// What is put in an editor is what is read from it, but for the line ends
/// behind it.
pub proof fn law_text_reads_back(s: Seq<char>)
    ensures
        text::joined(text::split_of(without_line_ends(s), '\n'), seq!['\n']) == without_line_ends(s),
{
    text::lemma_split_joined(without_line_ends(s), '\n');
}

} // verus!
