//! The typing session: the reference text, what has been typed so far, and
//! the current wrap of the text.

use crate::render::{footer, footer_spec, render_frame, shows, Footer, Frame};
use crate::time::Timer;
use crate::width::{chars_of, glyph_widths, measure};
use crate::wrap::{
    as_ints, cut, lemma_line_ends_split, lemma_splits_ordered, line_ends, line_start, splits,
    wrap_offsets,
};
use vstd::prelude::*;

verus! {

/// Trusted: `String::push` appends one character.
pub assume_specification[ String::push ](s: &mut String, c: char)
    ensures
        final(s)@ == old(s)@.push(c),
;

/// Trusted: `String::pop` removes the last character and returns it, or
/// returns `None` and leaves an empty string as it is.
pub assume_specification[ String::pop ](s: &mut String) -> (last: Option<char>)
    ensures
        old(s)@.len() == 0 ==> last is None && final(s)@ == old(s)@,
        old(s)@.len() > 0 ==> last == Some(old(s)@.last()) && final(s)@ == old(s)@.drop_last(),
;

/// The state of one character of the reference text.
#[derive(Clone, Copy, Debug, PartialEq, Eq, Structural)]
pub enum CharState {
    /// Typed, and the same as the reference.
    Correct,
    /// Typed, but as this other character.
    Incorrect(char),
    /// Not reached yet.
    Untyped,
}

/// The state of position `i` of `text` when `typed` has been typed.
pub open spec fn classify_at(text: Seq<char>, typed: Seq<char>, i: int) -> CharState {
    if i < typed.len() {
        if typed[i] == text[i] {
            CharState::Correct
        } else {
            CharState::Incorrect(typed[i])
        }
    } else {
        CharState::Untyped
    }
}

/// The state of every position of `text`.
pub open spec fn classify_spec(text: Seq<char>, typed: Seq<char>) -> Seq<CharState> {
    Seq::new(text.len(), |i: int| classify_at(text, typed, i))
}

/// How many states say that the character was typed, rightly or wrongly.
pub open spec fn typed_count(states: Seq<CharState>) -> nat
    decreases states.len(),
{
    if states.len() == 0 {
        0
    } else {
        typed_count(states.drop_last()) + if states.last() is Untyped {
            0nat
        } else {
            1nat
        }
    }
}

/// How many states say that the character is still to be typed.
pub open spec fn untyped_count(states: Seq<CharState>) -> nat
    decreases states.len(),
{
    if states.len() == 0 {
        0
    } else {
        untyped_count(states.drop_last()) + if states.last() is Untyped {
            1nat
        } else {
            0nat
        }
    }
}

/// Among the first `k` states, those before the typed length are typed
/// and the others are not.
proof fn lemma_counts_prefix(text: Seq<char>, typed: Seq<char>, k: int)
    requires
        typed.len() <= text.len(),
        0 <= k <= text.len(),
    ensures
        typed_count(classify_spec(text, typed).take(k)) == if k <= typed.len() {
            k
        } else {
            typed.len() as int
        },
        untyped_count(classify_spec(text, typed).take(k)) == if k <= typed.len() {
            0
        } else {
            k - typed.len()
        },
    decreases k,
{
    let states = classify_spec(text, typed);
    if k > 0 {
        lemma_counts_prefix(text, typed, k - 1);
        assert(states.take(k).drop_last() =~= states.take(k - 1));
        assert(states.take(k).last() == classify_at(text, typed, k - 1));
    }
}

/// Each position is typed or untyped: as many are typed (right or
/// wrong) as characters were typed, and the rest of the text is untyped.
pub proof fn lemma_classify_total(text: Seq<char>, typed: Seq<char>)
    requires
        typed.len() <= text.len(),
    ensures
        classify_spec(text, typed).len() == text.len(),
        typed_count(classify_spec(text, typed)) == typed.len(),
        untyped_count(classify_spec(text, typed)) == text.len() - typed.len(),
{
    let states = classify_spec(text, typed);
    lemma_counts_prefix(text, typed, text.len() as int);
    assert(states.take(text.len() as int) =~= states);
}

/// With `t` characters typed, the next one is character `column` of line
/// `line`, where `ends` holds the end offset of every line.
pub open spec fn is_cursor(ends: Seq<int>, t: int, line: int, column: int) -> bool {
    &&& 0 <= line < ends.len()
    &&& 0 <= column
    &&& line_start(ends, line) + column == t
    &&& t < ends[line]
}

/// Only one place can be the cursor.
pub proof fn lemma_cursor_unique(ends: Seq<int>, n: int, t: int, l1: int, c1: int, l2: int, c2: int)
    requires
        splits(ends, n),
        is_cursor(ends, t, l1, c1),
        is_cursor(ends, t, l2, c2),
    ensures
        l1 == l2,
        c1 == c2,
{
    if l1 < l2 {
        if l1 < l2 - 1 {
            assert(ends[l1] < ends[l2 - 1]);
        }
    } else if l2 < l1 {
        if l2 < l1 - 1 {
            assert(ends[l2] < ends[l1 - 1]);
        }
    }
}

/// Finds the cursor when `t` characters are typed: the first line that
/// ends after offset `t`, and the offset's distance from that line's start.
pub fn locate(ends: &Vec<usize>, t: usize) -> (cursor: Option<(usize, usize)>)
    requires
        splits(as_ints(ends@), as_ints(ends@).last()),
        t <= as_ints(ends@).last(),
    ensures
        cursor is None <==> t == as_ints(ends@).last(),
        cursor is Some ==> is_cursor(
            as_ints(ends@),
            t as int,
            cursor.unwrap().0 as int,
            cursor.unwrap().1 as int,
        ),
{
    let ghost n = as_ints(ends@).last();
    let mut from: usize = 0;
    let mut k: usize = 0;
    while k < ends.len()
        invariant
            k <= ends.len(),
            n == as_ints(ends@).last(),
            splits(as_ints(ends@), n),
            t <= n,
            from as int == line_start(as_ints(ends@), k as int),
            from <= t,
        decreases ends.len() - k,
    {
        proof {
            lemma_splits_ordered(as_ints(ends@), n, k as int);
        }
        let to = ends[k];
        assert(as_ints(ends@)[k as int] == to as int);
        if t < to {
            return Some((k, t - from));
        }
        from = to;
        k += 1;
    }
    None
}

/// What the front end reports to the session.
#[derive(Clone, Copy, Debug, PartialEq, Eq, Structural)]
pub enum Input {
    /// A character key.
    Char(char),
    /// A character key pressed together with the control key.
    Control(char),
    /// The erase key.
    Backspace,
    /// The terminal now has this many columns and rows.
    Resize(u16, u16),
    /// Nothing of interest: another key, or the wait ran out.
    Idle,
}

/// What the front end does after an input was handled.
#[derive(Clone, Copy, Debug, PartialEq, Eq, Structural)]
pub enum Step {
    /// Draw again and wait for the next input.
    Continue,
    /// Leave the loop: the text is complete or the user gave up.
    Stop,
}

/// What has been typed once `input` is handled.
pub open spec fn typed_after(text: Seq<char>, typed: Seq<char>, input: Input) -> Seq<char> {
    match input {
        Input::Char(c) => if typed.len() == text.len() {
            typed
        } else {
            typed.push(c)
        },
        Input::Backspace => if typed.len() == 0 {
            typed
        } else {
            typed.drop_last()
        },
        _ => typed,
    }
}

/// Whether the loop goes on once `input` is handled: it stops on control-q
/// and when a character key leaves the text complete.
pub open spec fn step_after(text: Seq<char>, typed: Seq<char>, input: Input) -> Step {
    match input {
        Input::Char(c) => if typed_after(text, typed, input).len() == text.len() {
            Step::Stop
        } else {
            Step::Continue
        },
        Input::Control(c) => if c == 'q' {
            Step::Stop
        } else {
            Step::Continue
        },
        _ => Step::Continue,
    }
}

/// A typing session.
pub struct App {
    current_line: usize,
    terminal_height: u16,
    width: usize,
    text: Vec<char>,
    timer: Timer,
    typed: String,
    ends: Vec<usize>,
}

impl App {
    /// The reference text.
    pub closed spec fn text_view(&self) -> Seq<char> {
        self.text@
    }

    /// What has been typed so far.
    pub closed spec fn typed_view(&self) -> Seq<char> {
        self.typed@
    }

    /// The end offset of every wrapped line.
    pub closed spec fn ends_view(&self) -> Seq<int> {
        as_ints(self.ends@)
    }

    /// The width that the text is wrapped at.
    pub closed spec fn width_view(&self) -> usize {
        self.width
    }

    /// The number of rows of the terminal.
    pub closed spec fn height_view(&self) -> u16 {
        self.terminal_height
    }

    /// The line that the cursor was on when it was last looked up.
    pub closed spec fn current_line_view(&self) -> usize {
        self.current_line
    }

    /// The session's stopwatch.
    pub closed spec fn timer_view(&self) -> Timer {
        self.timer
    }

    /// The wrapped lines.
    pub open spec fn lines_view(&self) -> Seq<Seq<char>> {
        cut(self.text_view(), self.ends_view())
    }

    /// The session's invariant: the lines are the wrap of the text at the
    /// session's width, and no more was typed than there is text.
    pub open spec fn wf(&self) -> bool {
        &&& self.width_view() > 0
        &&& self.text_view().len() < usize::MAX
        &&& self.typed_view().len() <= self.text_view().len()
        &&& self.ends_view() == line_ends(
            self.text_view(),
            glyph_widths(self.text_view()),
            self.width_view() as nat,
        )
    }

    /// Everything but the typed characters is the same in both sessions.
    pub open spec fn same_setting(&self, other: &App) -> bool {
        &&& self.text_view() == other.text_view()
        &&& self.ends_view() == other.ends_view()
        &&& self.width_view() == other.width_view()
        &&& self.height_view() == other.height_view()
        &&& self.current_line_view() == other.current_line_view()
        &&& self.timer_view() == other.timer_view()
    }

    /// The session is complete: as many characters were typed as the text has.
    pub open spec fn complete(&self) -> bool {
        self.typed_view().len() == self.text_view().len()
    }

    /// The end offsets of a session's lines split its text.
    pub proof fn lemma_lines_split(&self)
        requires
            self.wf(),
        ensures
            splits(self.ends_view(), self.text_view().len() as int),
    {
        lemma_line_ends_split(
            self.text_view(),
            glyph_widths(self.text_view()),
            self.width_view() as nat,
        );
    }

    /// A new session on `text`, wrapped for a terminal of `width` columns
    /// and `height` rows, with nothing typed and the stopwatch running.
    pub fn new(text: &str, width: usize, height: u16) -> (app: App)
        requires
            width > 0,
            text@.len() < usize::MAX,
        ensures
            app.wf(),
            app.text_view() == text@,
            app.typed_view() == Seq::<char>::empty(),
            app.width_view() == width,
            app.height_view() == height,
            app.current_line_view() == 0,
    {
        let chars = chars_of(text);
        let widths = measure(&chars);
        let ends = wrap_offsets(&chars, &widths, width);
        App {
            current_line: 0,
            terminal_height: height,
            width,
            text: chars,
            timer: Timer::new(),
            typed: String::new(),
            ends,
        }
    }

    /// What has been typed so far.
    pub fn typed_ref(&self) -> (typed: &str)
        ensures
            typed@ == self.typed_view(),
    {
        self.typed.as_str()
    }

    /// The session's stopwatch.
    pub fn timer_ref(&self) -> (timer: &Timer)
        ensures
            *timer == self.timer_view(),
    {
        &self.timer
    }

    /// The line that the cursor was on when it was last looked up.
    pub fn current_line(&self) -> (line: usize)
        ensures
            line == self.current_line_view(),
    {
        self.current_line
    }

    /// The number of rows of the terminal.
    pub fn terminal_height(&self) -> (rows: u16)
        ensures
            rows == self.height_view(),
    {
        self.terminal_height
    }

    /// Whether everything has been typed.
    pub fn is_complete(&self) -> (done: bool)
        ensures
            done == self.complete(),
    {
        self.typed.as_str().unicode_len() == self.text.len()
    }

    /// Takes one typed character. Once the session is complete, further
    /// characters are ignored.
    pub fn push_char(&mut self, c: char)
        requires
            old(self).wf(),
        ensures
            final(self).wf(),
            final(self).same_setting(old(self)),
            final(self).typed_view() == typed_after(
                old(self).text_view(),
                old(self).typed_view(),
                Input::Char(c),
            ),
            old(self).complete() ==> final(self).typed_view() == old(self).typed_view(),
    {
        if !self.is_complete() {
            self.typed.push(c);
        }
    }

    /// Erases the last typed character, if there is one.
    pub fn pop_char(&mut self)
        requires
            old(self).wf(),
        ensures
            final(self).wf(),
            final(self).same_setting(old(self)),
            final(self).typed_view() == typed_after(
                old(self).text_view(),
                old(self).typed_view(),
                Input::Backspace,
            ),
            old(self).typed_view().len() == 0 ==> final(self).typed_view() == old(
                self,
            ).typed_view(),
    {
        let _ = self.typed.pop();
    }

    /// Wraps the text anew for a terminal of `width` columns. What was
    /// typed stays as it is.
    pub fn rewrap(&mut self, width: usize)
        requires
            old(self).wf(),
            width > 0,
        ensures
            final(self).wf(),
            final(self).width_view() == width,
            final(self).text_view() == old(self).text_view(),
            final(self).typed_view() == old(self).typed_view(),
            final(self).complete() == old(self).complete(),
            final(self).height_view() == old(self).height_view(),
            final(self).timer_view() == old(self).timer_view(),
            final(self).current_line_view() == old(self).current_line_view(),
    {
        let widths = measure(&self.text);
        self.ends = wrap_offsets(&self.text, &widths, width);
        self.width = width;
    }

    /// The state of every character of the text, in one pass.
    pub fn classify(&self) -> (states: Vec<CharState>)
        requires
            self.wf(),
        ensures
            states@ == classify_spec(self.text_view(), self.typed_view()),
            typed_count(states@) == self.typed_view().len(),
            untyped_count(states@) == self.text_view().len() - self.typed_view().len(),
    {
        let typed = chars_of(self.typed.as_str());
        let mut states: Vec<CharState> = Vec::new();
        let mut i: usize = 0;
        while i < self.text.len()
            invariant
                i <= self.text.len(),
                typed@ == self.typed@,
                typed.len() <= self.text.len(),
                states@ == classify_spec(self.text@, typed@).take(i as int),
            decreases self.text.len() - i,
        {
            let state = if i < typed.len() {
                if typed[i] == self.text[i] {
                    CharState::Correct
                } else {
                    CharState::Incorrect(typed[i])
                }
            } else {
                CharState::Untyped
            };
            assert(state == classify_at(self.text@, typed@, i as int));
            let ghost before = states@;
            states.push(state);
            assert(classify_spec(self.text@, typed@).take(i + 1) =~= before.push(
                classify_spec(self.text@, typed@)[i as int],
            ));
            i += 1;
        }
        proof {
            assert(classify_spec(self.text@, typed@).take(i as int) =~= classify_spec(
                self.text@,
                typed@,
            ));
            lemma_classify_total(self.text@, typed@);
        }
        states
    }

    /// Where the next character goes: the line and the column in it, or
    /// `None` once the session is complete.
    pub fn cursor_position(&self) -> (cursor: Option<(usize, usize)>)
        requires
            self.wf(),
        ensures
            cursor is None <==> self.complete(),
            cursor is Some ==> is_cursor(
                self.ends_view(),
                self.typed_view().len() as int,
                cursor.unwrap().0 as int,
                cursor.unwrap().1 as int,
            ),
    {
        let t = self.typed.as_str().unicode_len();
        proof {
            self.lemma_lines_split();
        }
        locate(&self.ends, t)
    }

    /// What the terminal shows of the text: the visible lines, each
    /// character with its state, and the cursor's place.
    pub fn draw_text(&self) -> (frame: Frame)
        requires
            self.wf(),
        ensures
            shows(
                frame,
                self.text_view(),
                self.typed_view(),
                self.ends_view(),
                self.height_view(),
            ),
    {
        let typed = chars_of(self.typed.as_str());
        proof {
            self.lemma_lines_split();
        }
        render_frame(&self.text, &typed, &self.ends, self.terminal_height)
    }

    /// The whole screen: the text as `draw_text` gives it, and the figures
    /// of the bottom rows after `elapsed_secs` seconds.
    pub fn draw(&self, elapsed_secs: u64) -> (screen: (Frame, Footer))
        requires
            self.wf(),
        ensures
            shows(
                screen.0,
                self.text_view(),
                self.typed_view(),
                self.ends_view(),
                self.height_view(),
            ),
            screen.1 == footer_spec(self.text_view(), self.typed_view(), elapsed_secs),
    {
        let typed = chars_of(self.typed.as_str());
        proof {
            self.lemma_lines_split();
        }
        let frame = render_frame(&self.text, &typed, &self.ends, self.terminal_height);
        (frame, footer(&self.text, &typed, elapsed_secs))
    }

    /// Looks the cursor's line up and keeps it. A complete session has no
    /// cursor, and the line kept before stays.
    pub fn set_current_line(&mut self)
        requires
            old(self).wf(),
        ensures
            final(self).wf(),
            final(self).text_view() == old(self).text_view(),
            final(self).typed_view() == old(self).typed_view(),
            final(self).ends_view() == old(self).ends_view(),
            final(self).width_view() == old(self).width_view(),
            final(self).height_view() == old(self).height_view(),
            final(self).timer_view() == old(self).timer_view(),
            old(self).complete() ==> final(self).current_line_view() == old(
                self,
            ).current_line_view(),
            !old(self).complete() ==> is_cursor(
                final(self).ends_view(),
                final(self).typed_view().len() as int,
                final(self).current_line_view() as int,
                final(self).typed_view().len() - line_start(
                    final(self).ends_view(),
                    final(self).current_line_view() as int,
                ),
            ),
    {
        match self.cursor_position() {
            Some((line, _)) => {
                self.current_line = line;
            },
            None => {},
        }
    }

    /// Handles one input of the front end and says whether its loop goes
    /// on. A character key types, the erase key erases, a resize wraps the
    /// text anew; control-q stops, and so does the key that completes the
    /// text. Unless the loop stops, the cursor's line is looked up again.
    pub fn handle_event(&mut self, input: Input) -> (step: Step)
        requires
            old(self).wf(),
            input matches Input::Resize(w, _) ==> w > 0,
        ensures
            final(self).wf(),
            final(self).text_view() == old(self).text_view(),
            final(self).typed_view() == typed_after(
                old(self).text_view(),
                old(self).typed_view(),
                input,
            ),
            step == step_after(old(self).text_view(), old(self).typed_view(), input),
            final(self).width_view() == (match input {
                Input::Resize(w, _) => w as usize,
                _ => old(self).width_view(),
            }),
            final(self).height_view() == (match input {
                Input::Resize(_, h) => h,
                _ => old(self).height_view(),
            }),
            !(input is Resize) ==> final(self).ends_view() == old(self).ends_view(),
            final(self).timer_view() == old(self).timer_view(),
            step is Stop || final(self).complete() ==> final(self).current_line_view() == old(
                self,
            ).current_line_view(),
            step is Continue && !final(self).complete() ==> is_cursor(
                final(self).ends_view(),
                final(self).typed_view().len() as int,
                final(self).current_line_view() as int,
                final(self).typed_view().len() - line_start(
                    final(self).ends_view(),
                    final(self).current_line_view() as int,
                ),
            ),
    {
        match input {
            Input::Char(c) => {
                self.push_char(c);
                if self.is_complete() {
                    return Step::Stop;
                }
            },
            Input::Control(c) => {
                if c == 'q' {
                    return Step::Stop;
                }
            },
            Input::Backspace => {
                self.pop_char();
            },
            Input::Resize(w, h) => {
                self.rewrap(w as usize);
                self.terminal_height = h;
            },
            Input::Idle => {},
        }
        self.set_current_line();
        Step::Continue
    }
}

} // verus!
