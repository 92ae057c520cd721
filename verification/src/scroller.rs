use vstd::prelude::*;

verus! {

/// The 5 rows of a letter on the grid, row after row: 3 leds wide for known letters, 1 led
/// wide (and dark) for every other character.
pub open spec fn letter_pattern(letter: char) -> Seq<u8> {
    if letter == 'h' {
        seq![1, 0, 1, 1, 0, 1, 1, 1, 1, 1, 0, 1, 1, 0, 1]
    } else if letter == 'a' {
        seq![0, 1, 0, 1, 0, 1, 1, 1, 1, 1, 0, 1, 1, 0, 1]
    } else if letter == 'c' {
        seq![1, 1, 1, 1, 0, 0, 1, 0, 0, 1, 0, 0, 1, 1, 1]
    } else if letter == 'k' {
        seq![1, 0, 1, 1, 0, 1, 1, 1, 0, 1, 0, 1, 1, 0, 1]
    } else if letter == 'e' {
        seq![1, 1, 1, 1, 0, 0, 1, 1, 1, 1, 0, 0, 1, 1, 1]
    } else if letter == 'd' {
        seq![1, 1, 0, 1, 0, 1, 1, 0, 1, 1, 0, 1, 1, 1, 1]
    } else if letter == 'b' {
        seq![1, 1, 0, 1, 0, 1, 1, 1, 1, 1, 0, 1, 1, 1, 1]
    } else if letter == 'y' {
        seq![1, 0, 1, 1, 0, 1, 1, 1, 1, 0, 1, 0, 0, 1, 0]
    } else if letter == 'r' {
        seq![1, 1, 1, 1, 0, 1, 1, 1, 0, 1, 0, 1, 1, 0, 1]
    } else if letter == 'o' {
        seq![1, 1, 1, 1, 0, 1, 1, 0, 1, 1, 0, 1, 1, 1, 1]
    } else if letter == 't' {
        seq![1, 1, 1, 0, 1, 0, 0, 1, 0, 0, 1, 0, 0, 1, 0]
    } else {
        seq![0, 0, 0, 0, 0, 0, 0, 0, 0]
    }
}

/// Row `row` of a letter followed by one dark led of spacing.
pub open spec fn letter_row(letter: char, row: int) -> Seq<u8> {
    let pattern = letter_pattern(letter);
    let width = pattern.len() / 5;
    pattern.subrange(row * width, (row + 1) * width).push(0)
}

/// Row `row` of a text: the rows of its letters side by side.
pub open spec fn text_row(text: Seq<char>, row: int) -> Seq<u8>
    decreases text.len(),
{
    if text.len() == 0 {
        Seq::empty()
    } else {
        text_row(text.drop_last(), row) + letter_row(text.last(), row)
    }
}

/// The first `rows` rows of a text, one after the other.
pub open spec fn text_rows(text: Seq<char>, rows: int) -> Seq<u8>
    decreases rows,
{
    if rows <= 0 {
        Seq::empty()
    } else {
        text_rows(text, rows - 1) + text_row(text, rows - 1)
    }
}

/// The 8 by 5 frame of a scrolling buffer, column by column, `frame` columns along and
/// wrapping around.
pub open spec fn scroll_frame(buffer: Seq<u8>, frame: int) -> Seq<u8> {
    let width = buffer.len() as int / 5;
    Seq::new(40, |k: int| buffer[(k / 5 + frame) % width + width * (k % 5)])
}

/// Scrolling repeats itself: the frame one buffer width further along is the same frame.
pub proof fn law_scrolling_repeats(buffer: Seq<u8>, frame: int)
    requires
        buffer.len() >= 5,
    ensures
        scroll_frame(buffer, frame + buffer.len() as int / 5) == scroll_frame(buffer, frame),
{
    let width = buffer.len() as int / 5;
    assert forall|k: int| 0 <= k < 40 implies #[trigger] scroll_frame(buffer, frame + width)[k] == scroll_frame(buffer, frame)[k] by {
        vstd::arithmetic::div_mod::lemma_mod_add_multiples_vanish(k / 5 + frame, width);
        assert(k / 5 + (frame + width) == width + (k / 5 + frame));
    }
    assert(scroll_frame(buffer, frame + width) =~= scroll_frame(buffer, frame));
}

/// Text scrolling over the grid.
#[derive(Debug)]
pub struct Scroller {
    buffer: Vec<u8>,
    current_frame: usize,
}

proof fn lemma_letter_width(letter: char)
    ensures
        letter_pattern(letter).len() == 15 || letter_pattern(letter).len() == 9,
        letter_pattern(letter).len() / 5 >= 1,
{
}

proof fn lemma_text_row_length(text: Seq<char>, row: int)
    requires
        0 <= row < 5,
    ensures
        text_row(text, row).len() >= 2 * text.len(),
    decreases text.len(),
{
    if text.len() > 0 {
        lemma_text_row_length(text.drop_last(), row);
        let pattern = letter_pattern(text.last());
        let width = pattern.len() / 5;
        lemma_letter_width(text.last());
        assert(width * 5 <= pattern.len());
        assert((row + 1) * width == row * width + width && (row + 1) * width <= pattern.len()) by (nonlinear_arith)
            requires
                0 <= row < 5,
                width * 5 <= pattern.len(),
                width >= 1,
        ;
    }
}

proof fn lemma_text_rows_length(text: Seq<char>, rows: int)
    requires
        0 <= rows <= 5,
    ensures
        text_rows(text, rows).len() >= 2 * text.len() * rows,
    decreases rows,
{
    if rows > 0 {
        lemma_text_rows_length(text, rows - 1);
        lemma_text_row_length(text, rows - 1);
        let n = 2 * text.len();
        let before = text_rows(text, rows - 1).len();
        let row = text_row(text, rows - 1).len();
        assert(text_rows(text, rows).len() == before + row);
        assert(before + row >= n * rows) by (nonlinear_arith)
            requires
                before >= n * (rows - 1),
                row >= n,
        ;
    } else {
        assert(2 * text.len() * rows == 0) by (nonlinear_arith)
            requires
                rows == 0,
        ;
    }
}

impl Scroller {
    pub closed spec fn buffer_view(&self) -> Seq<u8> {
        self.buffer@
    }

    pub closed spec fn frame_index(&self) -> int {
        self.current_frame as int
    }

    /// Scroll `string` followed by two spaces.
    pub fn new(string: String) -> (r: Self)
        ensures
            r.buffer_view() == text_rows(string@ + seq![' ', ' '], 5),
            r.buffer_view().len() >= 20,
            r.frame_index() == 0,
    {
        let mut string = string;
        let ghost initial = string@;
        string.append("  ");
        proof {
            reveal_strlit("  ");
            assert(string@ =~= initial + seq![' ', ' ']);
            lemma_text_rows_length(string@, 5);
        }
        Scroller { buffer: Scroller::get_text_as_vector(string), current_frame: 0 }
    }

    /// Move the text one column along.
    pub fn next_frame(&mut self)
        requires
            old(self).frame_index() < usize::MAX,
        ensures
            final(self).frame_index() == old(self).frame_index() + 1,
            final(self).buffer_view() == old(self).buffer_view(),
    {
        self.current_frame += 1;
    }

    /// The 40 leds of the current frame, column by column.
    pub fn get_frame(&mut self) -> (r: Vec<u8>)
        requires
            old(self).buffer_view().len() >= 5,
            old(self).frame_index() + 8 <= usize::MAX,
        ensures
            r@ == scroll_frame(old(self).buffer_view(), old(self).frame_index()),
            final(self).buffer_view() == old(self).buffer_view(),
            final(self).frame_index() == old(self).frame_index(),
    {
        let mut output: Vec<u8> = Vec::new();
        let length = self.buffer.len();
        let width = length / 5;
        let ghost frame = scroll_frame(self.buffer@, self.current_frame as int);
        let mut x: usize = 0;
        while x < 8
            invariant
                0 <= x <= 8,
                width == self.buffer@.len() / 5,
                length == self.buffer@.len(),
                width >= 1,
                self.current_frame + 8 <= usize::MAX,
                frame == scroll_frame(self.buffer@, self.current_frame as int),
                output@ == frame.take(x * 5),
            decreases 8 - x,
        {
            let mut y: usize = 0;
            while y < 5
                invariant
                    0 <= x < 8,
                    0 <= y <= 5,
                    width == self.buffer@.len() / 5,
                    length == self.buffer@.len(),
                    width >= 1,
                    self.current_frame + 8 <= usize::MAX,
                    frame == scroll_frame(self.buffer@, self.current_frame as int),
                    output@ == frame.take(x * 5 + y),
                decreases 5 - y,
            {
                let column = (x + self.current_frame) % width;
                assert(width * 5 <= self.buffer@.len());
                assert(width * y <= width * 4) by (nonlinear_arith)
                    requires
                        y <= 4,
                ;
                assert(width * y + column < self.buffer@.len());
                let base = width * y;
                let index = column + base;
                assert((x * 5 + y) / 5 == x && (x * 5 + y) % 5 == y);
                output.push(self.buffer[index]);
                assert(output@ =~= frame.take(x * 5 + y + 1));
                y += 1;
            }
            x += 1;
        }
        assert(output@ =~= frame);
        output
    }

    /// The leds of a text, row after row; each row holds the rows of the letters side by
    /// side, each followed by a dark led.
    pub fn get_text_as_vector(text: String) -> (r: Vec<u8>)
        ensures
            r@ == text_rows(text@, 5),
    {
        let chars = text.as_str();
        let mut out: Vec<u8> = Vec::new();
        let mut row: usize = 0;
        while row < 5
            invariant
                0 <= row <= 5,
                chars@ == text@,
                out@ == text_rows(text@, row as int),
            decreases 5 - row,
        {
            let ghost before = out@;
            for letter in it: chars.chars()
                invariant
                    0 <= row < 5,
                    it.seq() == text@,
                    out@ == before + text_row(text@.take(it.index() as int), row as int),
            {
                assert(text@.take(it.index() + 1).drop_last() =~= text@.take(it.index() as int));
                let pattern = Scroller::get_letter(letter);
                let width = pattern.len() / 5;
                proof {
                    lemma_letter_width(letter);
                }
                assert(width == 1 || width == 3);
                assert(width * 5 <= pattern@.len());
                assert(row * width <= 12 && (row + 1) * width <= 15 && (row + 1) * width
                    == row * width + width && (row + 1) * width <= pattern@.len()) by (nonlinear_arith)
                    requires
                        row < 5,
                        width == 1 || width == 3,
                        width * 5 <= pattern@.len(),
                ;
                let mut k: usize = row * width;
                let ghost row_before = out@;
                while k < (row + 1) * width
                    invariant
                        row < 5,
                        width == 1 || width == 3,
                        (row + 1) * width <= 15,
                        row * width <= k <= (row + 1) * width,
                        (row + 1) * width <= pattern@.len(),
                        out@ == row_before + pattern@.subrange(row * width, k as int),
                    decreases (row + 1) * width - k,
                {
                    out.push(pattern[k]);
                    assert(out@ =~= row_before + pattern@.subrange(row * width, k + 1));
                    k += 1;
                }
                out.push(0);
                assert(out@ =~= row_before + letter_row(letter, row as int));
            }
            assert(text@.take(text@.len() as int) =~= text@);
            row += 1;
        }
        out
    }

    /// The 5 rows of a letter.
    pub fn get_letter(letter: char) -> (r: Vec<u8>)
        ensures
            r@ == letter_pattern(letter),
    {
        let r = match letter {
            'h' => vec![1, 0, 1, 1, 0, 1, 1, 1, 1, 1, 0, 1, 1, 0, 1],
            'a' => vec![0, 1, 0, 1, 0, 1, 1, 1, 1, 1, 0, 1, 1, 0, 1],
            'c' => vec![1, 1, 1, 1, 0, 0, 1, 0, 0, 1, 0, 0, 1, 1, 1],
            'k' => vec![1, 0, 1, 1, 0, 1, 1, 1, 0, 1, 0, 1, 1, 0, 1],
            'e' => vec![1, 1, 1, 1, 0, 0, 1, 1, 1, 1, 0, 0, 1, 1, 1],
            'd' => vec![1, 1, 0, 1, 0, 1, 1, 0, 1, 1, 0, 1, 1, 1, 1],
            'b' => vec![1, 1, 0, 1, 0, 1, 1, 1, 1, 1, 0, 1, 1, 1, 1],
            'y' => vec![1, 0, 1, 1, 0, 1, 1, 1, 1, 0, 1, 0, 0, 1, 0],
            'r' => vec![1, 1, 1, 1, 0, 1, 1, 1, 0, 1, 0, 1, 1, 0, 1],
            'o' => vec![1, 1, 1, 1, 0, 1, 1, 0, 1, 1, 0, 1, 1, 1, 1],
            't' => vec![1, 1, 1, 0, 1, 0, 0, 1, 0, 0, 1, 0, 0, 1, 0],
            _ => vec![0, 0, 0, 0, 0, 0, 0, 0, 0],
        };
        assert(r@ =~= letter_pattern(letter));
        r
    }
}

} // verus!
