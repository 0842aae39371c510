//! Lays out the framed message and joins its rows into one string.
use crate::options::{default_options, TextBorderOptions};
use crate::text::{
    is_white_space, join_lines, leading_white, lemma_lines_of_join, lemma_trimmed, lines_of,
    push_char, single_line, trim_white_space, trimmed,
};
use vstd::prelude::*;
use vstd::string::*;

verus! {

/// The message as it is laid out: as given when `prevent_trim` holds, else trimmed.
pub open spec fn effective_message(message: Seq<char>, prevent_trim: bool) -> Seq<char> {
    if prevent_trim {
        message
    } else {
        trimmed(message)
    }
}

/// The options in force: those given, or the defaults when none are.
pub open spec fn options_or_default(options: Option<TextBorderOptions>) -> TextBorderOptions {
    match options {
        Some(o) => o,
        None => default_options(),
    }
}

/// The rows that frame `message` under `opts`, top to bottom.
pub open spec fn framed_rows(message: Seq<char>, opts: TextBorderOptions) -> Seq<Seq<char>> {
    opts.rows(effective_message(message, opts.prevent_trim))
}

/// The framed text: its rows joined by line breaks.
pub open spec fn framed(message: Seq<char>, opts: TextBorderOptions) -> Seq<char> {
    join_lines(framed_rows(message, opts))
}

/// Appends `line` as one more row after the rows `done` already written to `out`.
fn push_line(out: &mut String, done: Ghost<Seq<Seq<char>>>, started: bool, line: &str)
    requires
        old(out)@ == join_lines(done@),
        started == (done@.len() > 0),
    ensures
        final(out)@ == join_lines(done@.push(line@)),
{
    if started {
        push_char(out, '\n');
    }
    out.append(line);
    proof {
        assert(done@.push(line@).drop_last() =~= done@);
        if !started {
            assert(old(out)@ + line@ =~= line@);
        }
    }
}

/// Appends `count` copies of `line` as rows after the rows `done` already written to `out`,
/// and tells whether any row has been written by then.
fn push_lines(
    out: &mut String,
    done: Ghost<Seq<Seq<char>>>,
    started: bool,
    line: &str,
    count: usize,
) -> (now_started: bool)
    requires
        old(out)@ == join_lines(done@),
        started == (done@.len() > 0),
    ensures
        final(out)@ == join_lines(done@ + Seq::new(count as nat, |_i: int| line@)),
        now_started == (done@.len() + count > 0),
{
    let mut started = started;
    for i in 0..count
        invariant
            out@ == join_lines(done@ + Seq::new(i as nat, |_i: int| line@)),
            started == (done@.len() + i > 0),
    {
        let ghost before = done@ + Seq::new(i as nat, |_i: int| line@);
        push_line(out, Ghost(before), started, line);
        started = true;
        assert(before.push(line@) =~= done@ + Seq::new((i + 1) as nat, |_i: int| line@));
    }
    assert(done@ + Seq::new(0, |_i: int| line@) =~= done@);
    started
}

/// Frames `message` as `options` say, or with the default options when none are given.
///
/// The rows are joined with single line breaks, with none before the first row or after
/// the last.
pub fn create_text_border(message: &str, options: Option<TextBorderOptions>) -> (r: String)
    ensures
        r@ == framed(message@, options_or_default(options)),
{
    let opts = match options {
        Some(o) => o,
        None => TextBorderOptions::default(),
    };
    let output_message: &str = if opts.prevent_trim {
        message
    } else {
        trim_white_space(message)
    };
    let border = opts.create_border_line(output_message);
    let margin = opts.create_margin_line(output_message);
    let middle = opts.create_message_line(output_message);

    let mut out = String::new();
    let ghost none: Seq<Seq<char>> = Seq::empty();
    let ghost d0 = none + Seq::new(opts.border_thickness.1 as nat, |_i: int| border@);
    let ghost d1 = d0 + Seq::new(opts.margin_thickness.1 as nat, |_i: int| margin@);
    let ghost d2 = d1.push(middle@);
    let ghost d3 = d2 + Seq::new(opts.margin_thickness.3 as nat, |_i: int| margin@);
    let ghost d4 = d3 + Seq::new(opts.border_thickness.3 as nat, |_i: int| border@);

    let started = push_lines(&mut out, Ghost(none), false, border.as_str(), opts.border_thickness.1);
    let started = push_lines(&mut out, Ghost(d0), started, margin.as_str(), opts.margin_thickness.1);
    push_line(&mut out, Ghost(d1), started, middle.as_str());
    let started = push_lines(&mut out, Ghost(d2), true, margin.as_str(), opts.margin_thickness.3);
    push_lines(&mut out, Ghost(d3), started, border.as_str(), opts.border_thickness.3);
    assert(d4 =~= framed_rows(message@, opts));
    out
}

/// Every row of the frame has the same length: the laid-out message's length plus both side
/// borders and both side margins.
pub proof fn lemma_rows_equal_width(message: Seq<char>, opts: TextBorderOptions)
    ensures
        forall|i: int|
            0 <= i < framed_rows(message, opts).len() ==> (#[trigger] framed_rows(message, opts)[i]).len()
                == opts.row_width(effective_message(message, opts.prevent_trim).len()),
{
}

/// The frame has as many rows as the top and bottom borders and margins together, plus the
/// message row.
pub proof fn lemma_row_count(message: Seq<char>, opts: TextBorderOptions)
    ensures
        framed_rows(message, opts).len() == opts.border_thickness.1 + opts.margin_thickness.1 + 1
            + opts.margin_thickness.3 + opts.border_thickness.3,
{
}

/// When neither the message nor the border character is a line break, the lines of the
/// framed text are exactly the rows of the frame.
pub proof fn lemma_lines_are_rows(message: Seq<char>, opts: TextBorderOptions)
    requires
        single_line(message),
        opts.border_char != '\n',
    ensures
        lines_of(framed(message, opts)) == framed_rows(message, opts),
{
    let m = effective_message(message, opts.prevent_trim);
    if !opts.prevent_trim {
        lemma_trimmed(message);
        let a = leading_white(message) as int;
        assert forall|k: int| 0 <= k < m.len() implies #[trigger] m[k] != '\n' by {
            assert(m[k] == message[a + k]);
        }
    }
    assert(single_line(m));
    let rows = framed_rows(message, opts);
    assert forall|i: int| 0 <= i < rows.len() implies single_line(#[trigger] rows[i]) by {
        let row = rows[i];
        assert forall|k: int| 0 <= k < row.len() implies #[trigger] row[k] != '\n' by {
            let bl = opts.border_thickness.0 as int;
            let ml = opts.margin_thickness.0 as int;
            if row == opts.message_line_spec(m) && bl + ml <= k < bl + ml + m.len() {
                assert(row[k] == m[k - bl - ml]);
            }
        }
    }
    lemma_lines_of_join(rows);
}

/// Without `prevent_trim`, the message row carries the message with the white space at its
/// two ends removed and nothing else dropped: the content between the side margins is a
/// stretch of the message, everything of the message outside that stretch is white space,
/// and the content neither begins nor ends with white space.
pub proof fn lemma_trimmed_message_row(message: Seq<char>, opts: TextBorderOptions)
    requires
        !opts.prevent_trim,
    ensures
        ({
            let rows = framed_rows(message, opts);
            let row = rows[opts.border_thickness.1 + opts.margin_thickness.1];
            let start = opts.border_thickness.0 + opts.margin_thickness.0;
            let content = row.subrange(start, start + trimmed(message).len());
            let a = leading_white(message);
            &&& content == trimmed(message)
            &&& content == message.subrange(a as int, (a + content.len()) as int)
            &&& forall|k: int| 0 <= k < a ==> is_white_space(#[trigger] message[k])
            &&& forall|k: int|
                a + content.len() <= k < message.len() ==> is_white_space(#[trigger] message[k])
            &&& content.len() > 0 ==> !is_white_space(content.first()) && !is_white_space(
                content.last(),
            )
        }),
{
    let m = trimmed(message);
    lemma_trimmed(message);
    let row = opts.message_line_spec(m);
    let start = opts.border_thickness.0 + opts.margin_thickness.0;
    assert(framed_rows(message, opts)[opts.border_thickness.1 + opts.margin_thickness.1] == row);
    assert(row.subrange(start, start + m.len()) =~= m);
}

/// With `prevent_trim`, the content between the side margins of the message row is the
/// message exactly as given, white space at its ends included.
pub proof fn lemma_untrimmed_message_row(message: Seq<char>, opts: TextBorderOptions)
    requires
        opts.prevent_trim,
    ensures
        ({
            let rows = framed_rows(message, opts);
            let row = rows[opts.border_thickness.1 + opts.margin_thickness.1];
            let start = opts.border_thickness.0 + opts.margin_thickness.0;
            row == opts.message_line_spec(message) && row.subrange(start, start + message.len())
                == message
        }),
{
    let row = opts.message_line_spec(message);
    let start = opts.border_thickness.0 + opts.margin_thickness.0;
    assert(framed_rows(message, opts)[opts.border_thickness.1 + opts.margin_thickness.1] == row);
    assert(row.subrange(start, start + message.len()) =~= message);
}

/// Giving no options frames a message exactly as giving the default options does.
pub proof fn lemma_absent_options_are_default(message: Seq<char>)
    ensures
        framed(message, options_or_default(None)) == framed(message, options_or_default(
            Some(default_options()),
        )),
{
}

} // verus!
