//! The frame configuration and the three kinds of row it draws.
use crate::text::{lemma_repeat_add, push_repeated, repeat_char};
use vstd::prelude::*;
use vstd::string::*;

verus! {

/// How a message is framed.
///
/// Thicknesses are given in the order (left, top, right, bottom). Border cells are drawn
/// with `border_char`; margin cells are blank. Unless `prevent_trim` is set, white space
/// at both ends of the message is dropped before layout.
#[derive(Clone, Copy, Debug, PartialEq, Eq)]
pub struct TextBorderOptions {
    pub border_char: char,
    pub border_thickness: (usize, usize, usize, usize),
    pub margin_thickness: (usize, usize, usize, usize),
    pub prevent_trim: bool,
}

/// A star border one cell thick on every side, no margin, message trimmed.
pub open spec fn default_options() -> TextBorderOptions {
    TextBorderOptions {
        border_char: '*',
        border_thickness: (1, 1, 1, 1),
        margin_thickness: (0, 0, 0, 0),
        prevent_trim: false,
    }
}

impl Default for TextBorderOptions {
    fn default() -> (r: Self)
        ensures
            r == default_options(),
    {
        TextBorderOptions {
            border_char: '*',
            border_thickness: (1, 1, 1, 1),
            margin_thickness: (0, 0, 0, 0),
            prevent_trim: false,
        }
    }
}

impl TextBorderOptions {
    /// Length of every row framing a message of `content_width` characters.
    pub open spec fn row_width(self, content_width: nat) -> nat {
        (content_width + self.border_thickness.0 + self.border_thickness.2 + self.margin_thickness.0
            + self.margin_thickness.2) as nat
    }

    /// A full-width row of border cells.
    pub open spec fn border_line_spec(self, message: Seq<char>) -> Seq<char> {
        repeat_char(self.border_char, self.row_width(message.len()))
    }

    /// Side borders around a blank interior as wide as margins and message together.
    pub open spec fn margin_line_spec(self, message: Seq<char>) -> Seq<char> {
        repeat_char(self.border_char, self.border_thickness.0 as nat)
            + repeat_char(' ', (message.len() + self.margin_thickness.0 + self.margin_thickness.2) as nat)
            + repeat_char(self.border_char, self.border_thickness.2 as nat)
    }

    /// Side borders and side margins around the message itself.
    pub open spec fn message_line_spec(self, message: Seq<char>) -> Seq<char> {
        repeat_char(self.border_char, self.border_thickness.0 as nat)
            + repeat_char(' ', self.margin_thickness.0 as nat)
            + message
            + repeat_char(' ', self.margin_thickness.2 as nat)
            + repeat_char(self.border_char, self.border_thickness.2 as nat)
    }

    /// All rows, top to bottom: border rows, margin rows, the message row, margin rows,
    /// border rows.
    pub open spec fn rows(self, message: Seq<char>) -> Seq<Seq<char>> {
        let border = self.border_line_spec(message);
        let margin = self.margin_line_spec(message);
        Seq::new(self.border_thickness.1 as nat, |_i: int| border)
            + Seq::new(self.margin_thickness.1 as nat, |_i: int| margin)
            + seq![self.message_line_spec(message)]
            + Seq::new(self.margin_thickness.3 as nat, |_i: int| margin)
            + Seq::new(self.border_thickness.3 as nat, |_i: int| border)
    }

    /// The border row for `message`.
    pub fn create_border_line(&self, message: &str) -> (r: String)
        ensures
            r@ == self.border_line_spec(message@),
    {
        let c = self.border_char;
        let width = message.unicode_len();
        let mut r = String::new();
        push_repeated(&mut r, c, self.border_thickness.0);
        push_repeated(&mut r, c, self.margin_thickness.0);
        push_repeated(&mut r, c, width);
        push_repeated(&mut r, c, self.margin_thickness.2);
        push_repeated(&mut r, c, self.border_thickness.2);
        proof {
            let (bl, ml, mr, br) = (
                self.border_thickness.0 as nat,
                self.margin_thickness.0 as nat,
                self.margin_thickness.2 as nat,
                self.border_thickness.2 as nat,
            );
            let w = width as nat;
            lemma_repeat_add(c, bl, ml);
            lemma_repeat_add(c, bl + ml, w);
            lemma_repeat_add(c, bl + ml + w, mr);
            lemma_repeat_add(c, bl + ml + w + mr, br);
            assert(Seq::<char>::empty() + repeat_char(c, bl) =~= repeat_char(c, bl));
            assert(bl + ml + w + mr + br == self.row_width(w));
        }
        r
    }

    /// A margin row for `message`.
    pub fn create_margin_line(&self, message: &str) -> (r: String)
        ensures
            r@ == self.margin_line_spec(message@),
    {
        let c = self.border_char;
        let width = message.unicode_len();
        let mut r = String::new();
        push_repeated(&mut r, c, self.border_thickness.0);
        let ghost left = r@;
        push_repeated(&mut r, ' ', self.margin_thickness.0);
        push_repeated(&mut r, ' ', width);
        push_repeated(&mut r, ' ', self.margin_thickness.2);
        let ghost inner = r@;
        push_repeated(&mut r, c, self.border_thickness.2);
        proof {
            let (ml, mr) = (self.margin_thickness.0 as nat, self.margin_thickness.2 as nat);
            let w = width as nat;
            lemma_repeat_add(' ', ml, w);
            lemma_repeat_add(' ', ml + w, mr);
            assert(left =~= repeat_char(c, self.border_thickness.0 as nat));
            assert(inner =~= left + repeat_char(' ', w + ml + mr));
        }
        r
    }

    /// The row that holds `message`.
    pub fn create_message_line(&self, message: &str) -> (r: String)
        ensures
            r@ == self.message_line_spec(message@),
    {
        let c = self.border_char;
        let mut r = String::new();
        push_repeated(&mut r, c, self.border_thickness.0);
        assert(r@ =~= repeat_char(c, self.border_thickness.0 as nat));
        push_repeated(&mut r, ' ', self.margin_thickness.0);
        r.append(message);
        push_repeated(&mut r, ' ', self.margin_thickness.2);
        push_repeated(&mut r, c, self.border_thickness.2);
        r
    }
}

} // verus!
