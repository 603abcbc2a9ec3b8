//! The progress renderer: its state, its configuration, and the line it draws.
use vstd::arithmetic::div_mod::{lemma_div_is_ordered, lemma_div_multiples_vanish};
use vstd::arithmetic::mul::lemma_mul_inequality;
use vstd::prelude::*;

use crate::bar::{bar, fill_bar, lemma_counts_cover_width, Palette};
use crate::clock::{elapsed_text, push_elapsed, two_digits};
use crate::text::{
    chars_of, decimal, is_digit, is_placeholder, lemma_decimal_digits, lemma_replaced_len,
    lemma_replacements_commute, occurrences, push_decimal, replace_all, replaced, string_of,
};

verus! {

/// Why a renderer could not be built or configured.
#[derive(Clone, Copy, Debug, PartialEq, Eq, Structural)]
pub enum ProgressError {
    /// The target count is zero.
    InvalidTarget,
    /// The palette does not hold exactly three characters.
    InvalidPalette,
}

/// What the terminal should show after a render.
#[derive(Debug, PartialEq, Eq)]
pub enum Frame {
    /// Clear the current line, then write this text without a newline.
    Line(String),
    /// The terminal could not report its width: print a diagnostic instead.
    SizeUnavailable,
}

/// The abstract state of a renderer.
pub ghost struct BarState {
    pub target: nat,
    pub current: nat,
    pub format: Seq<char>,
    pub palette: Palette,
}

/// A single-line progress bar. One owner drives it; it is not meant to be
/// shared between writers.
#[derive(Debug)]
pub struct ProgressBar {
    target: u64,
    current: u64,
    format: String,
    palette: Palette,
}

impl View for ProgressBar {
    type V = BarState;

    closed spec fn view(&self) -> BarState {
        BarState {
            target: self.target as nat,
            current: self.current as nat,
            format: self.format@,
            palette: self.palette,
        }
    }
}

/// Placeholder for the elapsed time, `HH:MM:SS`.
pub open spec fn elapsed_token() -> Seq<char> {
    "{elapsed_time}"@
}

/// Placeholder for the target count.
pub open spec fn target_token() -> Seq<char> {
    "{target}"@
}

/// Placeholder for the current count.
pub open spec fn current_token() -> Seq<char> {
    "{current}"@
}

/// Placeholder for the whole percentage done.
pub open spec fn percentage_token() -> Seq<char> {
    "{percentage}"@
}

/// Placeholder for the bar itself, filled in last.
pub open spec fn progress_token() -> Seq<char> {
    "{progress}"@
}

/// The palette used until another is set: `#`, `>`, `-`.
pub open spec fn default_palette() -> Palette {
    Palette { filled: '#', head: '>', empty: '-' }
}

/// Whole percent done, truncated, followed by `%`.
pub open spec fn percentage_text(current: nat, target: nat) -> Seq<char> {
    decimal((current * 100 / target) as nat).push('%')
}

/// The placeholders filled in before `{progress}`, in the order used.
pub open spec fn placeholder(i: int) -> Seq<char> {
    if i == 0 {
        elapsed_token()
    } else if i == 1 {
        target_token()
    } else if i == 2 {
        current_token()
    } else {
        percentage_token()
    }
}

/// The text that the placeholder numbered `i` stands for.
pub open spec fn placeholder_value(s: BarState, elapsed: nat, i: int) -> Seq<char> {
    if i == 0 {
        elapsed_text(elapsed)
    } else if i == 1 {
        decimal(s.target)
    } else if i == 2 {
        decimal(s.current)
    } else {
        percentage_text(s.current, s.target)
    }
}

/// The template with every placeholder but `{progress}` filled in: elapsed
/// time, target, current count and percentage, in that order.
pub open spec fn substituted(s: BarState, elapsed: nat) -> Seq<char> {
    let a = replaced(s.format, placeholder(0), placeholder_value(s, elapsed, 0));
    let b = replaced(a, placeholder(1), placeholder_value(s, elapsed, 1));
    let c = replaced(b, placeholder(2), placeholder_value(s, elapsed, 2));
    replaced(c, placeholder(3), placeholder_value(s, elapsed, 3))
}

/// Columns taken by everything on the line but the bar.
pub open spec fn text_width(s: BarState, elapsed: nat) -> nat {
    replaced(substituted(s, elapsed), progress_token(), Seq::empty()).len()
}

/// Columns left for the bar on a terminal `width` columns wide; none when
/// the text alone is wider than the terminal.
pub open spec fn available_width(s: BarState, width: nat, elapsed: nat) -> nat {
    if text_width(s, elapsed) <= width {
        (width - text_width(s, elapsed)) as nat
    } else {
        0
    }
}

/// The full line for a terminal `width` columns wide, `elapsed` seconds in.
pub open spec fn rendered(s: BarState, width: nat, elapsed: nat) -> Seq<char> {
    replaced(
        substituted(s, elapsed),
        progress_token(),
        bar(s.current, s.target, available_width(s, width, elapsed), s.palette),
    )
}

/// The state after advancing by `amount`, capped at the target.
pub open spec fn advanced(s: BarState, amount: nat) -> BarState {
    BarState {
        current: if s.current + amount <= s.target {
            s.current + amount
        } else {
            s.target
        },
        ..s
    }
}

/// What `draw` shows for a terminal width that may be unknown.
pub open spec fn frame_for(s: BarState, width: Option<usize>, elapsed: nat, f: Frame) -> bool {
    match width {
        Some(w) => f is Line && f->Line_0@ == rendered(s, w as nat, elapsed),
        None => f is SizeUnavailable,
    }
}

/// Characters that filled-in values are made of.
pub open spec fn is_value_char(c: char) -> bool {
    is_digit(c) || c == ':' || c == '%'
}

proof fn lemma_placeholder_shape(i: int)
    requires
        0 <= i < 4,
    ensures
        is_placeholder(placeholder(i)),
        forall|j: int| 0 <= j < placeholder(i).len() ==> !is_value_char(#[trigger] placeholder(i)[j]),
{
    reveal_strlit("{elapsed_time}");
    reveal_strlit("{target}");
    reveal_strlit("{current}");
    reveal_strlit("{percentage}");
}

proof fn lemma_value_shape(s: BarState, elapsed: nat, i: int)
    requires
        0 <= i < 4,
    ensures
        placeholder_value(s, elapsed, i).len() > 0,
        forall|j: int|
            0 <= j < placeholder_value(s, elapsed, i).len() ==> is_value_char(
                #[trigger] placeholder_value(s, elapsed, i)[j],
            ),
{
    let v = placeholder_value(s, elapsed, i);
    if i == 0 {
        let h = elapsed / 3600;
        let m = (elapsed / 60) % 60;
        let sec = elapsed % 60;
        lemma_decimal_digits(h);
        lemma_decimal_digits(m);
        lemma_decimal_digits(sec);
        assert forall|j: int| 0 <= j < v.len() implies is_value_char(#[trigger] v[j]) by {
            let a = two_digits(h);
            let b = two_digits(m);
            let c = two_digits(sec);
            assert(v == a + seq![':'] + b + seq![':'] + c);
        }
    } else if i == 1 {
        lemma_decimal_digits(s.target);
    } else if i == 2 {
        lemma_decimal_digits(s.current);
    } else {
        lemma_decimal_digits((s.current * 100 / s.target) as nat);
    }
}

/// Apart from `{progress}`, the placeholders can be filled in in any order:
/// filling in any two of them one way round or the other gives the same
/// text.
pub proof fn lemma_fill_order_irrelevant(s: BarState, elapsed: nat, text: Seq<char>, i: int, j: int)
    requires
        0 <= i < 4,
        0 <= j < 4,
        i != j,
    ensures
        replaced(
            replaced(text, placeholder(i), placeholder_value(s, elapsed, i)),
            placeholder(j),
            placeholder_value(s, elapsed, j),
        ) == replaced(
            replaced(text, placeholder(j), placeholder_value(s, elapsed, j)),
            placeholder(i),
            placeholder_value(s, elapsed, i),
        ),
{
    lemma_placeholder_shape(i);
    lemma_placeholder_shape(j);
    lemma_value_shape(s, elapsed, i);
    lemma_value_shape(s, elapsed, j);
    reveal_strlit("{elapsed_time}");
    reveal_strlit("{target}");
    reveal_strlit("{current}");
    reveal_strlit("{percentage}");
    assert(placeholder(i) != placeholder(j)) by {
        if placeholder(i) == placeholder(j) {
            assert(placeholder(i)[1] == placeholder(j)[1]);
        }
    }
    lemma_replacements_commute(
        text,
        placeholder(i),
        placeholder_value(s, elapsed, i),
        placeholder(j),
        placeholder_value(s, elapsed, j),
    );
}

/// The bar takes exactly the columns that the rest of the line leaves: when
/// the filled-in template holds `{progress}` once and its other text fits,
/// the line is exactly as wide as the terminal.
pub proof fn lemma_line_fills_terminal(s: BarState, width: nat, elapsed: nat)
    requires
        s.target > 0,
        s.current <= s.target,
        occurrences(substituted(s, elapsed), progress_token()) == 1,
        text_width(s, elapsed) <= width,
    ensures
        bar(s.current, s.target, available_width(s, width, elapsed), s.palette).len() == width
            - text_width(s, elapsed),
        rendered(s, width, elapsed).len() == width,
{
    let avail = available_width(s, width, elapsed);
    lemma_counts_cover_width(s.current, s.target, avail, s.palette);
    lemma_replaced_len(
        substituted(s, elapsed),
        progress_token(),
        bar(s.current, s.target, avail, s.palette),
    );
}

/// The line depends on nothing but the state, the width and the elapsed
/// seconds, so rendering one state twice at one width and time gives the
/// same line; and an increment by zero leaves the state as it was, so it
/// draws that same line again.
pub proof fn lemma_render_repeatable(s: BarState, width: nat, elapsed: nat)
    requires
        s.current <= s.target,
    ensures
        advanced(s, 0) == s,
        rendered(advanced(s, 0), width, elapsed) == rendered(s, width, elapsed),
{
}

impl ProgressBar {
    /// A renderer has a positive target and never counts past it.
    pub open spec fn wf(&self) -> bool {
        self@.target > 0 && self@.current <= self@.target
    }

    /// A renderer for `target` units, at zero, with the template `{progress}`
    /// and the default palette.
    pub fn new(target: u64) -> (r: Result<ProgressBar, ProgressError>)
        ensures
            r is Err <==> target == 0,
            r is Err ==> r->Err_0 == ProgressError::InvalidTarget,
            r is Ok ==> r->Ok_0.wf() && r->Ok_0@ == (BarState {
                target: target as nat,
                current: 0,
                format: progress_token(),
                palette: default_palette(),
            }),
    {
        if target == 0 {
            return Err(ProgressError::InvalidTarget);
        }
        Ok(ProgressBar {
            target,
            current: 0,
            format: String::from_str("{progress}"),
            palette: Palette { filled: '#', head: '>', empty: '-' },
        })
    }

    /// Replaces the template.
    pub fn set_format(&mut self, format: &str)
        requires
            old(self).wf(),
        ensures
            final(self).wf(),
            final(self)@ == (BarState { format: format@, ..old(self)@ }),
    {
        self.format = String::from_str(format);
    }

    /// Replaces the palette by the three characters of `chars`: filled, head
    /// and empty, in that order. Anything but exactly three characters is
    /// refused and leaves the renderer as it was.
    pub fn set_progress_chars(&mut self, chars: &str) -> (r: Result<(), ProgressError>)
        requires
            old(self).wf(),
        ensures
            final(self).wf(),
            r is Ok <==> chars@.len() == 3,
            r is Err ==> r->Err_0 == ProgressError::InvalidPalette && final(self)@ == old(self)@,
            r is Ok ==> final(self)@ == (BarState {
                palette: Palette { filled: chars@[0], head: chars@[1], empty: chars@[2] },
                ..old(self)@
            }),
    {
        let v = chars_of(chars);
        if v.len() != 3 {
            return Err(ProgressError::InvalidPalette);
        }
        self.palette = Palette { filled: v[0], head: v[1], empty: v[2] };
        Ok(())
    }

    /// The target count.
    pub fn target(&self) -> (r: u64)
        ensures
            r == self@.target,
    {
        self.target
    }

    /// The current count.
    pub fn current(&self) -> (r: u64)
        ensures
            r == self@.current,
    {
        self.current
    }

    /// The line for a terminal `width` columns wide, `elapsed_secs` seconds
    /// after the renderer was started. Where the text around the bar is
    /// already wider than the terminal, the bar is left empty rather than
    /// the width being wrapped or refused.
    pub fn render(&self, width: usize, elapsed_secs: u64) -> (r: String)
        requires
            self.wf(),
        ensures
            r@ == rendered(self@, width as nat, elapsed_secs as nat),
    {
        proof {
            reveal_strlit("{elapsed_time}");
            reveal_strlit("{target}");
            reveal_strlit("{current}");
            reveal_strlit("{percentage}");
            reveal_strlit("{progress}");
        }
        let format = chars_of(self.format.as_str());
        let mut time: Vec<char> = Vec::new();
        push_elapsed(&mut time, elapsed_secs);
        let a = replace_all(&format, &chars_of("{elapsed_time}"), &time);
        let mut target: Vec<char> = Vec::new();
        push_decimal(&mut target, self.target);
        let b = replace_all(&a, &chars_of("{target}"), &target);
        let mut current: Vec<char> = Vec::new();
        push_decimal(&mut current, self.current);
        let c = replace_all(&b, &chars_of("{current}"), &current);
        proof {
            lemma_mul_inequality(self.current as int, self.target as int, 100);
            lemma_div_is_ordered(self.current * 100, self.target * 100, self.target as int);
            lemma_div_multiples_vanish(100, self.target as int);
            assert(self.target * 100 == 100 * self.target) by (nonlinear_arith);
        }
        let percent = ((self.current as u128) * 100 / (self.target as u128)) as u64;
        assert(percent == (self@.current * 100 / self@.target) as nat);
        let mut percentage: Vec<char> = Vec::new();
        push_decimal(&mut percentage, percent);
        percentage.push('%');
        assert(percentage@ == percentage_text(self@.current, self@.target));
        assert(c@ == replaced(
            replaced(replaced(self@.format, elapsed_token(), elapsed_text(elapsed_secs as nat)), target_token(), decimal(self@.target)),
            current_token(),
            decimal(self@.current),
        ));
        let text = replace_all(&c, &chars_of("{percentage}"), &percentage);
        let token = chars_of("{progress}");
        let none: Vec<char> = Vec::new();
        let rest = replace_all(&text, &token, &none);
        assert(text@ == substituted(self@, elapsed_secs as nat));
        assert(none@ =~= Seq::<char>::empty());
        assert(rest@.len() == text_width(self@, elapsed_secs as nat));
        let available: usize = if rest.len() <= width {
            width - rest.len()
        } else {
            0
        };
        let fill = fill_bar(self.current, self.target, available, self.palette);
        let line = replace_all(&text, &token, &fill);
        assert(line@ =~= rendered(self@, width as nat, elapsed_secs as nat));
        string_of(&line)
    }

    /// The frame to show: the rendered line when the terminal width is
    /// known, a request for a diagnostic when it is not.
    pub fn draw(&self, width: Option<usize>, elapsed_secs: u64) -> (r: Frame)
        requires
            self.wf(),
        ensures
            frame_for(self@, width, elapsed_secs as nat, r),
    {
        match width {
            Some(w) => Frame::Line(self.render(w, elapsed_secs)),
            None => Frame::SizeUnavailable,
        }
    }

    /// Advances by `amount`, stopping at the target, and returns the frame
    /// for the new state.
    pub fn increment(&mut self, amount: u64, width: Option<usize>, elapsed_secs: u64) -> (r:
        Frame)
        requires
            old(self).wf(),
        ensures
            final(self).wf(),
            final(self)@ == advanced(old(self)@, amount as nat),
            frame_for(final(self)@, width, elapsed_secs as nat, r),
    {
        if amount <= self.target - self.current {
            self.current = self.current + amount;
        } else {
            self.current = self.target;
        }
        self.draw(width, elapsed_secs)
    }
}

} // verus!
