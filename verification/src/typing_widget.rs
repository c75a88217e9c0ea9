//! The typing screen: the text to type, what has been typed, the run's
//! clock, and the layout of the text in lines.

use vstd::prelude::*;
use std::time::{Duration, Instant};
use crate::input::{KeyCode, KeyEvent};
use crate::text::{chars_of, string_clear, string_pop, string_push};

verus! {

/// What the typing screen asks of the application after a key press.
#[derive(Debug, PartialEq, Eq, Clone, Copy, Structural)]
pub enum TypingAction {
    Exit,
}

#[verifier::external_type_specification]
#[verifier::external_body]
pub struct ExInstant(Instant);

/// Calls `Instant::now`; the instant is not described here.
#[verifier::external_body]
fn instant_now() -> Instant {
    Instant::now()
}

/// Calls `Instant::elapsed`; the duration depends on the clock and is not
/// described here.
#[verifier::external_body]
fn instant_elapsed(start: &Instant) -> Duration {
    start.elapsed()
}

/// Calls `Duration::as_secs`; the number is not described here.
#[verifier::external_body]
fn duration_as_secs(d: &Duration) -> u64 {
    d.as_secs()
}

/// The number of bytes of the UTF-8 encoding of `s`, as `str::len` gives it.
pub open spec fn utf8_len(s: Seq<char>) -> usize {
    vstd::utf8::encode_utf8(s).len() as usize
}

/// The number of positions below `n` at which `a` and `b` hold the same
/// character.
pub open spec fn matches_below(a: Seq<char>, b: Seq<char>, n: int) -> nat
    decreases n,
{
    if n <= 0 {
        0
    } else {
        matches_below(a, b, n - 1) + if a[n - 1] == b[n - 1] {
            1nat
        } else {
            0nat
        }
    }
}

/// The number of positions at which the typed text matches the target text.
pub open spec fn correct_chars(input: Seq<char>, target: Seq<char>) -> nat {
    matches_below(input, target, if input.len() < target.len() {
        input.len() as int
    } else {
        target.len() as int
    })
}

/// The abstract state of the typing screen.
pub struct TypingState {
    pub target: Seq<char>,
    pub input: Seq<char>,
    /// When the first character was typed, once one was.
    pub start: Option<Instant>,
    pub time_limit: Option<u64>,
}

impl TypingState {
    /// The run is over given `elapsed`, the whole seconds since its start
    /// (`None` before it started): the time limit has passed, or the typed
    /// text is at least as long as the target text, counted in UTF-8 bytes.
    pub open spec fn complete_after(self, elapsed: Option<u64>) -> bool {
        ||| (self.time_limit matches Some(limit) && elapsed matches Some(e) && e >= limit)
        ||| utf8_len(self.input) >= utf8_len(self.target)
    }
}

/// `new` follows `old` by typing `ch`: the character is appended, and the
/// clock starts if it had not (the instant comes from the clock).
pub open spec fn typed_char(old: TypingState, ch: char, new: TypingState) -> bool {
    &&& new.input == old.input.push(ch)
    &&& new.target == old.target
    &&& new.time_limit == old.time_limit
    &&& new.start is Some
    &&& old.start is Some ==> new.start == old.start
}

/// `old` with its last typed character removed, if any.
pub open spec fn removed_char(old: TypingState) -> TypingState {
    TypingState {
        input: if old.input.len() > 0 {
            old.input.drop_last()
        } else {
            old.input
        },
        ..old
    }
}

/// `old` with nothing typed and the clock stopped.
pub open spec fn cleared(old: TypingState) -> TypingState {
    TypingState { input: Seq::empty(), start: None, ..old }
}

/// `new` follows `old` after a key press on the typing screen: a character
/// is typed, Backspace removes the last one, other keys change nothing.
pub open spec fn typing_key_step(old: TypingState, code: KeyCode, new: TypingState) -> bool {
    match code {
        KeyCode::Char(ch) => typed_char(old, ch, new),
        KeyCode::Backspace => new == removed_char(old),
        _ => new == old,
    }
}

/// The action that a key press reports.
pub open spec fn typing_action(code: KeyCode) -> Option<TypingAction> {
    match code {
        KeyCode::Esc => Some(TypingAction::Exit),
        _ => None,
    }
}

#[derive(Debug)]
pub struct TypingWidget {
    target_text: String,
    input_text: String,
    start_time: Option<Instant>,
    time_limit: Option<u64>,
}

impl View for TypingWidget {
    type V = TypingState;

    closed spec fn view(&self) -> TypingState {
        TypingState {
            target: self.target_text@,
            input: self.input_text@,
            start: self.start_time,
            time_limit: self.time_limit,
        }
    }
}

impl TypingWidget {
    pub fn new(target_text: String) -> (res: Self)
        ensures
            res@ == (TypingState {
                target: target_text@,
                input: Seq::empty(),
                start: None,
                time_limit: None,
            }),
    {
        Self { target_text, input_text: String::new(), start_time: None, time_limit: None }
    }

    pub fn with_time_limit(self, seconds: u64) -> (res: Self)
        ensures
            res@ == (TypingState { time_limit: Some(seconds), ..self@ }),
    {
        let mut s = self;
        s.time_limit = Some(seconds);
        s
    }

    /// The screen with a new target text and nothing typed; the clock and
    /// the time limit stay.
    pub fn with_target_text(self, target_text: String) -> (res: Self)
        ensures
            res@ == (TypingState { target: target_text@, input: Seq::empty(), ..self@ }),
    {
        let mut s = self;
        s.target_text = target_text;
        string_clear(&mut s.input_text);
        s
    }

    /// A new target text with nothing typed; the clock and the time limit
    /// stay.
    pub fn set_target_text(&mut self, target_text: String)
        ensures
            final(self)@ == (TypingState { target: target_text@, input: Seq::empty(), ..old(self)@ }),
    {
        self.target_text = target_text;
        string_clear(&mut self.input_text);
    }

    /// A character is typed, Backspace removes the last one, Esc leaves.
    pub fn handle_input(&mut self, key: KeyEvent) -> (res: Option<TypingAction>)
        ensures
            typing_key_step(old(self)@, key.code, final(self)@),
            res == typing_action(key.code),
    {
        match key.code {
            KeyCode::Char(ch) => {
                self.add_char(ch);
                None
            },
            KeyCode::Backspace => {
                self.remove_char();
                None
            },
            KeyCode::Esc => Some(TypingAction::Exit),
            _ => None,
        }
    }

    /// Appends `ch` to the typed text; the clock starts with the first
    /// character.
    pub fn add_char(&mut self, ch: char)
        ensures
            typed_char(old(self)@, ch, final(self)@),
    {
        string_push(&mut self.input_text, ch);
        self.start_timer_if_needed();
    }

    /// Removes the last typed character, if any.
    pub fn remove_char(&mut self)
        ensures
            final(self)@ == removed_char(old(self)@),
    {
        string_pop(&mut self.input_text);
    }

    /// Clears the typed text and stops the clock; the target text and the
    /// time limit stay.
    pub fn reset(&mut self)
        ensures
            final(self)@ == cleared(old(self)@),
    {
        string_clear(&mut self.input_text);
        self.start_time = None;
    }

    fn start_timer_if_needed(&mut self)
        ensures
            final(self)@.input == old(self)@.input,
            final(self)@.target == old(self)@.target,
            final(self)@.time_limit == old(self)@.time_limit,
            old(self)@.start is Some ==> final(self)@.start == old(self)@.start,
            old(self)@.start is None && old(self)@.input.len() > 0 ==> final(self)@.start is Some,
            old(self)@.start is None && old(self)@.input.len() == 0 ==> final(self)@.start is None,
    {
        if self.start_time.is_none() && !self.input_text.as_str().is_empty() {
            self.start_time = Some(instant_now());
        }
    }

    /// The instant of the first typed character, once there was one.
    pub fn start_time(&self) -> (res: Option<Instant>)
        ensures
            res == self@.start,
    {
        self.start_time
    }

    /// The time limit in seconds, if any.
    pub fn time_limit(&self) -> (res: Option<u64>)
        ensures
            res == self@.time_limit,
    {
        self.time_limit
    }

    /// The whole seconds since the first typed character (`None` before it);
    /// the number comes from the clock.
    pub fn elapsed_secs(&self) -> (res: Option<u64>)
        ensures
            res is Some <==> self@.start is Some,
    {
        match &self.start_time {
            Some(start) => {
                let d = instant_elapsed(start);
                Some(duration_as_secs(&d))
            },
            None => None,
        }
    }

    pub fn get_input(&self) -> (res: &str)
        ensures
            res@ == self@.input,
    {
        self.input_text.as_str()
    }

    pub fn get_target(&self) -> (res: &str)
        ensures
            res@ == self@.target,
    {
        self.target_text.as_str()
    }

    /// Whether the run is over given `elapsed`, the whole seconds since the
    /// first typed character (`None` before it).
    pub fn is_complete_after(&self, elapsed: Option<u64>) -> (res: bool)
        ensures
            res == self@.complete_after(elapsed),
    {
        if let Some(limit) = self.time_limit {
            if let Some(e) = elapsed {
                if e >= limit {
                    return true;
                }
            }
        }
        self.input_text.as_str().len() >= self.target_text.as_str().len()
    }

    /// Whether the run is over: the time limit has passed on the clock, or
    /// the typed text is as long as the target text (in UTF-8 bytes).
    pub fn is_complete(&self) -> (res: bool)
        ensures
            utf8_len(self@.input) >= utf8_len(self@.target) ==> res,
            res ==> exists|e: Option<u64>|
                (e is Some <==> self@.start is Some) && #[trigger] self@.complete_after(e),
    {
        let elapsed = if self.time_limit.is_some() {
            self.elapsed_secs()
        } else {
            None
        };
        let res = self.is_complete_after(elapsed);
        proof {
            if res {
                if self@.start is Some {
                    if elapsed is None {
                        assert(self@.complete_after(Some(0u64)));
                    }
                } else {
                    assert(self@.complete_after(None::<u64>));
                }
            }
        }
        res
    }

    /// The number of typed characters.
    pub fn typed_chars(&self) -> (res: usize)
        ensures
            res == self@.input.len(),
    {
        let v = chars_of(self.input_text.as_str());
        v.len()
    }

    /// The number of positions at which the typed text matches the target.
    pub fn correct_chars(&self) -> (res: usize)
        ensures
            res == correct_chars(self@.input, self@.target),
    {
        let input = chars_of(self.input_text.as_str());
        let target = chars_of(self.target_text.as_str());
        let n = if input.len() < target.len() {
            input.len()
        } else {
            target.len()
        };
        let mut count: usize = 0;
        let mut i: usize = 0;
        while i < n
            invariant
                n <= input.len(),
                n <= target.len(),
                i <= n,
                count == matches_below(input@, target@, i as int),
                count <= i,
            decreases n - i,
        {
            if input[i] == target[i] {
                count += 1;
            }
            i += 1;
        }
        count
    }
}

// ---------------------------------------------------------------------
// Laying the target text out in lines
// ---------------------------------------------------------------------

/// Whether `c` has the Unicode `White_Space` property: U+0009 to U+000D,
/// U+0020, U+0085, U+00A0, U+1680, U+2000 to U+200A, U+2028, U+2029, U+202F,
/// U+205F and U+3000.
pub open spec fn char_is_whitespace(c: char) -> bool {
    let u = c as u32;
    ||| 0x09 <= u <= 0x0D
    ||| u == 0x20
    ||| u == 0x85
    ||| u == 0xA0
    ||| u == 0x1680
    ||| 0x2000 <= u <= 0x200A
    ||| u == 0x2028
    ||| u == 0x2029
    ||| u == 0x202F
    ||| u == 0x205F
    ||| u == 0x3000
}

/// Calls `char::is_whitespace`, which answers whether the character has the
/// Unicode `White_Space` property; the contract states that set of code
/// points.
#[verifier::external_body]
fn is_whitespace(c: char) -> (res: bool)
    ensures
        res == char_is_whitespace(c),
{
    c.is_whitespace()
}

/// The whitespace flags of the characters of `s`.
pub open spec fn whitespace_flags(s: Seq<char>) -> Seq<bool> {
    Seq::new(s.len(), |i: int| char_is_whitespace(s[i]))
}

/// The first position in `lo..hi` that holds a newline.
pub open spec fn first_newline_in(chars: Seq<char>, lo: int, hi: int) -> Option<int>
    decreases hi - lo,
{
    if lo >= hi {
        None
    } else if chars[lo] == '\n' {
        Some(lo)
    } else {
        first_newline_in(chars, lo + 1, hi)
    }
}

/// The last position in `lo..hi` whose flag is set.
pub open spec fn last_flag_in(flags: Seq<bool>, lo: int, hi: int) -> Option<int>
    decreases hi - lo,
{
    if lo >= hi {
        None
    } else if flags[hi - 1] {
        Some(hi - 1)
    } else {
        last_flag_in(flags, lo, hi - 1)
    }
}

/// Where the line that starts at `start` ends (exclusive). A line that
/// starts with a newline is that newline alone. Otherwise the line takes at
/// most `width` characters: it ends just after the first newline among
/// them; else, when more text follows, just after the last whitespace among
/// them; else after all of them.
pub open spec fn line_end(chars: Seq<char>, spaces: Seq<bool>, start: int, width: int) -> int {
    if 0 <= start < chars.len() && chars[start] == '\n' {
        start + 1
    } else {
        line_end_within(chars, spaces, start, width)
    }
}

/// Where a line that starts at `start` with another character than a
/// newline ends: see `line_end`.
pub open spec fn line_end_within(chars: Seq<char>, spaces: Seq<bool>, start: int, width: int) -> int {
    let limit = if width < chars.len() - start {
        start + width
    } else {
        chars.len() as int
    };
    match first_newline_in(chars, start, limit) {
        Some(i) => i + 1,
        None => if limit < chars.len() {
            match last_flag_in(spaces, start, limit) {
                Some(i) => i + 1,
                None => limit,
            }
        } else {
            limit
        },
    }
}

/// The lines of the text from `start` on, as (start, end) ranges of
/// character positions, each ending where `line_end` says. (A line end
/// outside `start + 1 ..= chars.len()` would end the list; with a width of at
/// least 1 there is none.)
pub open spec fn lines_from(chars: Seq<char>, spaces: Seq<bool>, width: int, start: int) -> Seq<
    (int, int),
>
    decreases chars.len() - start,
{
    if start >= chars.len() {
        Seq::empty()
    } else {
        let end = line_end(chars, spaces, start, width);
        if end <= start || end > chars.len() {
            Seq::empty()
        } else {
            seq![(start, end)] + lines_from(chars, spaces, width, end)
        }
    }
}

/// The lines of a whole text whose whitespace flags are `spaces`.
pub open spec fn text_line_ranges(chars: Seq<char>, spaces: Seq<bool>, width: int) -> Seq<
    (int, int),
> {
    lines_from(chars, spaces, width, 0)
}

/// Ranges of `usize` as ranges of integers.
pub open spec fn int_ranges(r: Seq<(usize, usize)>) -> Seq<(int, int)> {
    r.map_values(|p: (usize, usize)| (p.0 as int, p.1 as int))
}

proof fn lemma_first_newline_bounds(chars: Seq<char>, lo: int, hi: int)
    ensures
        first_newline_in(chars, lo, hi) matches Some(i) ==> lo <= i < hi && chars[i] == '\n',
        first_newline_in(chars, lo, hi) is None ==> forall|k: int| lo <= k < hi ==> chars[k] != '\n',
    decreases hi - lo,
{
    if lo < hi {
        lemma_first_newline_bounds(chars, lo + 1, hi);
    }
}

proof fn lemma_last_flag_bounds(flags: Seq<bool>, lo: int, hi: int)
    ensures
        last_flag_in(flags, lo, hi) matches Some(i) ==> lo <= i < hi && flags[i],
        last_flag_in(flags, lo, hi) is None ==> forall|k: int| lo <= k < hi ==> !flags[k],
    decreases hi - lo,
{
    if lo < hi {
        lemma_last_flag_bounds(flags, lo, hi - 1);
    }
}

/// A line from a position inside the text, with a width of at least 1,
/// ends after its start, within its width and within the text.
pub proof fn lemma_line_end_bounds(chars: Seq<char>, spaces: Seq<bool>, start: int, width: int)
    requires
        0 <= start < chars.len(),
        width >= 1 || chars[start] == '\n',
    ensures
        start < line_end(chars, spaces, start, width) <= chars.len(),
        line_end(chars, spaces, start, width) <= start + if width >= 1 {
            width
        } else {
            1
        },
{
    let limit = if width < chars.len() - start {
        start + width
    } else {
        chars.len() as int
    };
    lemma_first_newline_bounds(chars, start, limit);
    lemma_last_flag_bounds(spaces, start, limit);
}

/// Splits the characters `chars`, whose whitespace flags are `spaces`, into
/// lines of at most `max_width` characters.
pub fn split_lines(chars: &Vec<char>, spaces: &Vec<bool>, max_width: usize) -> (res: Vec<
    (usize, usize),
>)
    requires
        spaces@.len() == chars@.len(),
        max_width >= 1 || forall|i: int| 0 <= i < chars@.len() ==> chars@[i] == '\n',
    ensures
        int_ranges(res@) == text_line_ranges(chars@, spaces@, max_width as int),
{
    let n = chars.len();
    let mut lines: Vec<(usize, usize)> = Vec::new();
    let mut start: usize = 0;
    while start < n
        invariant
            n == chars@.len(),
            spaces@.len() == n,
            max_width >= 1 || forall|i: int| 0 <= i < n ==> chars@[i] == '\n',
            start <= n,
            text_line_ranges(chars@, spaces@, max_width as int) == int_ranges(lines@) + lines_from(
                chars@,
                spaces@,
                max_width as int,
                start as int,
            ),
        decreases n - start,
    {
        let ghost end_spec = line_end(chars@, spaces@, start as int, max_width as int);
        proof {
            lemma_line_end_bounds(chars@, spaces@, start as int, max_width as int);
        }
        let end: usize;
        if chars[start] == '\n' {
            end = start + 1;
        } else {
            let rest = n - start;
            let limit = start + if max_width < rest {
                max_width
            } else {
                rest
            };
            let mut newline_pos: Option<usize> = None;
            let mut i: usize = start;
            while i < limit
                invariant_except_break
                    newline_pos is None,
                invariant
                    start <= i <= limit,
                    limit <= n,
                    n == chars@.len(),
                    newline_pos is None ==> first_newline_in(chars@, start as int, limit as int)
                        == first_newline_in(chars@, i as int, limit as int),
                    newline_pos matches Some(p) ==> first_newline_in(
                        chars@,
                        start as int,
                        limit as int,
                    ) == Some(p - 1) && p >= 1,
                ensures
                    newline_pos is None ==> first_newline_in(chars@, start as int, limit as int)
                        is None,
                decreases limit - i,
            {
                if chars[i] == '\n' {
                    newline_pos = Some(i + 1);
                    break;
                }
                i += 1;
            }
            let mut e = limit;
            if let Some(nl) = newline_pos {
                e = nl;
            } else if limit < n {
                let mut last_space = limit;
                let mut k: usize = limit;
                while k > start
                    invariant_except_break
                        last_space == limit,
                        last_flag_in(spaces@, start as int, limit as int) == last_flag_in(
                            spaces@,
                            start as int,
                            k as int,
                        ),
                    invariant
                        start <= k <= limit,
                        limit <= n,
                        spaces@.len() == n,
                    ensures
                        last_flag_in(spaces@, start as int, limit as int) matches Some(p)
                            ==> last_space == p + 1,
                        last_flag_in(spaces@, start as int, limit as int) is None ==> last_space
                            == limit,
                    decreases k,
                {
                    if spaces[k - 1] {
                        last_space = k;
                        break;
                    }
                    k -= 1;
                }
                if last_space > start {
                    e = last_space;
                }
            }
            end = e;
        }
        assert(end == end_spec);
        let ghost old_lines = lines@;
        lines.push((start, end));
        assert(int_ranges(lines@) =~= int_ranges(old_lines).push((start as int, end as int)));
        assert(lines_from(chars@, spaces@, max_width as int, start as int) == seq![
            (start as int, end as int),
        ] + lines_from(chars@, spaces@, max_width as int, end as int));
        assert(int_ranges(lines@) + lines_from(chars@, spaces@, max_width as int, end as int)
            =~= int_ranges(old_lines) + lines_from(
            chars@,
            spaces@,
            max_width as int,
            start as int,
        ));
        start = end;
    }
    assert(int_ranges(lines@) + lines_from(chars@, spaces@, max_width as int, start as int)
        =~= int_ranges(lines@));
    lines
}

/// The line that holds the typing position `n` from position `idx` of the
/// ranges on: the first range from there that contains `n`, or the next one
/// when `n` is at its end and another follows; the last range when none
/// contains `n` (0 when there is no range).
pub open spec fn current_line_from(ranges: Seq<(usize, usize)>, n: int, idx: int) -> int
    decreases ranges.len() - idx,
{
    if idx < 0 || idx >= ranges.len() {
        if ranges.len() == 0 {
            0
        } else {
            ranges.len() - 1
        }
    } else if ranges[idx].0 <= n <= ranges[idx].1 {
        if n == ranges[idx].1 && idx + 1 < ranges.len() {
            idx + 1
        } else {
            idx
        }
    } else {
        current_line_from(ranges, n, idx + 1)
    }
}

/// The line that holds the typing position `n`.
pub open spec fn current_line(ranges: Seq<(usize, usize)>, n: int) -> int {
    current_line_from(ranges, n, 0)
}

/// The first of the (at most three) lines shown, given the current line and
/// the number of lines.
pub open spec fn visible_start(current: int, count: int) -> int {
    if current == 0 {
        0
    } else if current >= count - 1 {
        if count >= 3 {
            count - 3
        } else {
            0
        }
    } else {
        current - 1
    }
}

/// How a position of the target text is shown.
#[derive(Debug, PartialEq, Eq, Clone, Copy, Structural)]
pub enum CharState {
    /// Typed, and typed right.
    Correct,
    /// Typed, and typed wrong.
    Mistyped,
    /// The next position to type, on the current line.
    Cursor,
    /// Not typed yet.
    Untyped,
    /// Past the end of the target text.
    Blank,
}

/// How position `g` is shown, and the character shown there.
pub open spec fn cell_at(target: Seq<char>, input: Seq<char>, g: int, is_current: bool) -> (
    char,
    CharState,
) {
    if g < target.len() {
        if g < input.len() {
            if input[g] == target[g] {
                (target[g], CharState::Correct)
            } else {
                (target[g], CharState::Mistyped)
            }
        } else if g == input.len() && is_current {
            (target[g], CharState::Cursor)
        } else {
            (target[g], CharState::Untyped)
        }
    } else {
        (' ', CharState::Blank)
    }
}

impl TypingWidget {
    /// Splits `text` into lines of at most `max_width` characters: a line
    /// ends after a newline, else before the text that would overflow it,
    /// just after its last whitespace when it has one.
    pub fn split_text_into_lines(&self, text: &str, max_width: usize) -> (res: Vec<(usize, usize)>)
        requires
            max_width >= 1 || forall|i: int| 0 <= i < text@.len() ==> text@[i] == '\n',
        ensures
            int_ranges(res@) == text_line_ranges(text@, whitespace_flags(text@), max_width as int),
    {
        let chars = chars_of(text);
        let mut spaces: Vec<bool> = Vec::new();
        let mut i: usize = 0;
        while i < chars.len()
            invariant
                i <= chars.len(),
                chars@ == text@,
                spaces@ =~= whitespace_flags(text@).take(i as int),
            decreases chars.len() - i,
        {
            spaces.push(is_whitespace(chars[i]));
            i += 1;
        }
        assert(spaces@ =~= whitespace_flags(text@));
        split_lines(&chars, &spaces, max_width)
    }

    /// The line that holds the typing position `input_len`.
    pub fn get_current_line_index(&self, line_ranges: &[(usize, usize)], input_len: usize) -> (res:
        usize)
        ensures
            res == current_line(line_ranges@, input_len as int),
    {
        let mut idx: usize = 0;
        while idx < line_ranges.len()
            invariant
                idx <= line_ranges@.len(),
                current_line(line_ranges@, input_len as int) == current_line_from(
                    line_ranges@,
                    input_len as int,
                    idx as int,
                ),
            decreases line_ranges@.len() - idx,
        {
            let (start, end) = line_ranges[idx];
            if input_len >= start && input_len <= end {
                if input_len == end && idx + 1 < line_ranges.len() {
                    return idx + 1;
                }
                return idx;
            }
            idx += 1;
        }
        if line_ranges.len() == 0 {
            0
        } else {
            line_ranges.len() - 1
        }
    }

    /// The first of the lines shown: the current line's predecessor, or the
    /// first line, or the third line from the end when the current line is
    /// the last one.
    pub fn visible_start(&self, current: usize, count: usize) -> (res: usize)
        requires
            count >= 1,
        ensures
            res == visible_start(current as int, count as int),
    {
        if current == 0 {
            0
        } else if current >= count - 1 {
            count.saturating_sub(3)
        } else {
            current.saturating_sub(1)
        }
    }

    /// How the positions `start..end` of the target text are shown, with
    /// the characters shown there.
    pub fn line_cells(&self, start: usize, end: usize, is_current: bool) -> (res: Vec<
        (char, CharState),
    >)
        requires
            start <= end,
        ensures
            res@.len() == end - start,
            forall|i: int|
                0 <= i < end - start ==> #[trigger] res@[i] == cell_at(
                    self@.target,
                    self@.input,
                    start + i,
                    is_current,
                ),
    {
        let target = chars_of(self.target_text.as_str());
        let input = chars_of(self.input_text.as_str());
        let mut cells: Vec<(char, CharState)> = Vec::new();
        let mut i: usize = 0;
        while i < end - start
            invariant
                start <= end,
                i <= end - start,
                target@ == self@.target,
                input@ == self@.input,
                cells@.len() == i,
                forall|k: int|
                    0 <= k < i ==> #[trigger] cells@[k] == cell_at(
                        self@.target,
                        self@.input,
                        start + k,
                        is_current,
                    ),
            decreases end - start - i,
        {
            let g = start + i;
            let cell = if g < target.len() {
                let t = target[g];
                if g < input.len() {
                    if input[g] == t {
                        (t, CharState::Correct)
                    } else {
                        (t, CharState::Mistyped)
                    }
                } else if g == input.len() && is_current {
                    (t, CharState::Cursor)
                } else {
                    (t, CharState::Untyped)
                }
            } else {
                (' ', CharState::Blank)
            };
            cells.push(cell);
            i += 1;
        }
        cells
    }
}

// ---------------------------------------------------------------------
// Laws
// ---------------------------------------------------------------------

/// The lines from `start` on cover `start..chars.len()` without gap or
/// overlap; each holds between 1 and `width` characters and no newline but
/// possibly its last character.
pub proof fn lemma_lines_from_partition(chars: Seq<char>, spaces: Seq<bool>, width: int, start: int)
    requires
        width >= 1,
        0 <= start <= chars.len(),
    ensures
        ({
            let r = lines_from(chars, spaces, width, start);
            &&& (r.len() == 0 <==> start == chars.len())
            &&& r.len() > 0 ==> r[0].0 == start && r.last().1 == chars.len()
            &&& forall|i: int| 0 <= i < r.len() - 1 ==> #[trigger] r[i].1 == r[i + 1].0
            &&& forall|i: int|
                0 <= i < r.len() ==> r[i].0 < r[i].1 <= r[i].0 + width && start <= #[trigger] r[i].0
            &&& forall|i: int, k: int|
                #![trigger r[i], chars[k]]
                0 <= i < r.len() && r[i].0 <= k < r[i].1 - 1 ==> chars[k] != '\n'
        }),
    decreases chars.len() - start,
{
    if start < chars.len() {
        let end = line_end(chars, spaces, start, width);
        lemma_line_end_bounds(chars, spaces, start, width);
        lemma_line_end_no_inner_newline(chars, spaces, start, width);
        lemma_lines_from_partition(chars, spaces, width, end);
        let rest = lines_from(chars, spaces, width, end);
        let r = lines_from(chars, spaces, width, start);
        assert(r == seq![(start, end)] + rest);
        assert forall|i: int| 0 <= i < r.len() - 1 implies #[trigger] r[i].1 == r[i + 1].0 by {
            if i > 0 {
                assert(r[i] == rest[i - 1]);
                assert(r[i + 1] == rest[i]);
            }
        }
        assert forall|i: int|
            0 <= i < r.len() implies r[i].0 < r[i].1 <= r[i].0 + width && start <= #[trigger] r[i].0 by {
            if i > 0 {
                assert(r[i] == rest[i - 1]);
            }
        }
        assert forall|i: int, k: int|
            #![trigger r[i], chars[k]]
            0 <= i < r.len() && r[i].0 <= k < r[i].1 - 1 implies chars[k] != '\n' by {
            if i > 0 {
                assert(r[i] == rest[i - 1]);
            }
        }
    }
}

proof fn lemma_first_newline_is_first(chars: Seq<char>, lo: int, hi: int)
    ensures
        first_newline_in(chars, lo, hi) matches Some(p) ==> forall|k: int|
            lo <= k < p ==> chars[k] != '\n',
    decreases hi - lo,
{
    if lo < hi {
        lemma_first_newline_is_first(chars, lo + 1, hi);
    }
}

/// A line holds no newline but possibly its last character.
proof fn lemma_line_end_no_inner_newline(chars: Seq<char>, spaces: Seq<bool>, start: int, width: int)
    requires
        0 <= start < chars.len(),
        width >= 1,
    ensures
        forall|k: int|
            start <= k < line_end(chars, spaces, start, width) - 1 ==> chars[k] != '\n',
{
    let limit = if width < chars.len() - start {
        start + width
    } else {
        chars.len() as int
    };
    lemma_first_newline_bounds(chars, start, limit);
    lemma_first_newline_is_first(chars, start, limit);
    lemma_last_flag_bounds(spaces, start, limit);
}

/// The lines of a text cover it from its first to its last character
/// without gap or overlap; each holds between 1 and `width` characters, and
/// a newline only as its last character.
pub proof fn lemma_lines_partition_text(chars: Seq<char>, spaces: Seq<bool>, width: int)
    requires
        width >= 1,
    ensures
        ({
            let r = text_line_ranges(chars, spaces, width);
            &&& (r.len() == 0 <==> chars.len() == 0)
            &&& r.len() > 0 ==> r[0].0 == 0 && r.last().1 == chars.len()
            &&& forall|i: int| 0 <= i < r.len() - 1 ==> #[trigger] r[i].1 == r[i + 1].0
            &&& forall|i: int| 0 <= i < r.len() ==> #[trigger] r[i].0 < r[i].1 <= r[i].0 + width
            &&& forall|i: int, k: int|
                #![trigger r[i], chars[k]]
                0 <= i < r.len() && r[i].0 <= k < r[i].1 - 1 ==> chars[k] != '\n'
        }),
{
    lemma_lines_from_partition(chars, spaces, width, 0);
}

/// The current line is one of the lines, when there are lines.
pub proof fn lemma_current_line_in_range(ranges: Seq<(usize, usize)>, n: int)
    requires
        ranges.len() > 0,
    ensures
        0 <= current_line(ranges, n) < ranges.len(),
{
    lemma_current_line_from_in_range(ranges, n, 0);
}

proof fn lemma_current_line_from_in_range(ranges: Seq<(usize, usize)>, n: int, idx: int)
    requires
        ranges.len() > 0,
        0 <= idx,
    ensures
        0 <= current_line_from(ranges, n, idx) < ranges.len(),
        idx < ranges.len() ==> idx <= current_line_from(ranges, n, idx),
    decreases ranges.len() - idx,
{
    if idx < ranges.len() {
        lemma_current_line_from_in_range(ranges, n, idx + 1);
    }
}

/// On contiguous lines, a typing position within the text lies in the
/// current line, at its start or before its end.
pub proof fn lemma_current_line_holds_position(ranges: Seq<(usize, usize)>, n: int)
    requires
        ranges.len() > 0,
        ranges[0].0 <= n <= ranges.last().1,
        forall|i: int| 0 <= i < ranges.len() ==> #[trigger] ranges[i].0 <= ranges[i].1,
        forall|i: int| 0 <= i < ranges.len() - 1 ==> #[trigger] ranges[i].1 == ranges[i + 1].0,
    ensures
        ranges[current_line(ranges, n)].0 <= n <= ranges[current_line(ranges, n)].1,
{
    lemma_current_line_from_holds(ranges, n, 0);
}

proof fn lemma_current_line_from_holds(ranges: Seq<(usize, usize)>, n: int, idx: int)
    requires
        ranges.len() > 0,
        0 <= idx < ranges.len(),
        ranges[idx].0 <= n <= ranges.last().1,
        forall|i: int| 0 <= i < ranges.len() ==> #[trigger] ranges[i].0 <= ranges[i].1,
        forall|i: int| 0 <= i < ranges.len() - 1 ==> #[trigger] ranges[i].1 == ranges[i + 1].0,
    ensures
        ranges[current_line_from(ranges, n, idx)].0 <= n <= ranges[current_line_from(
            ranges,
            n,
            idx,
        )].1,
    decreases ranges.len() - idx,
{
    if !(n <= ranges[idx].1) {
        assert(idx + 1 < ranges.len());
        assert(ranges[idx].1 == ranges[idx + 1].0);
        lemma_current_line_from_holds(ranges, n, idx + 1);
    }
}

/// Backspace undoes a typed character.
pub proof fn lemma_backspace_undoes_typing(old: TypingState, ch: char, new: TypingState)
    requires
        typed_char(old, ch, new),
    ensures
        removed_char(new).input == old.input,
        removed_char(new).target == old.target,
{
    assert(old.input.push(ch).drop_last() =~= old.input);
}

proof fn lemma_matches_below_bounded(a: Seq<char>, b: Seq<char>, n: int)
    requires
        n >= 0,
    ensures
        matches_below(a, b, n) <= n,
    decreases n,
{
    if n > 0 {
        lemma_matches_below_bounded(a, b, n - 1);
    }
}

/// No more characters are correct than were typed, or than the target has:
/// accuracy is at most 1.
pub proof fn lemma_correct_chars_bounded(input: Seq<char>, target: Seq<char>)
    ensures
        correct_chars(input, target) <= input.len(),
        correct_chars(input, target) <= target.len(),
{
    let n = if input.len() < target.len() {
        input.len() as int
    } else {
        target.len() as int
    };
    lemma_matches_below_bounded(input, target, n);
}

/// Typing exactly the target text makes every character correct.
pub proof fn lemma_exact_typing_all_correct(text: Seq<char>)
    ensures
        correct_chars(text, text) == text.len(),
{
    lemma_matches_all(text, text.len() as int);
}

proof fn lemma_matches_all(text: Seq<char>, n: int)
    requires
        0 <= n <= text.len(),
    ensures
        matches_below(text, text, n) == n,
    decreases n,
{
    if n > 0 {
        lemma_matches_all(text, n - 1);
    }
}

/// A run whose typed text is as long as its target, in bytes, is over
/// whatever the clock says.
pub proof fn lemma_full_input_completes(s: TypingState, elapsed: Option<u64>)
    requires
        utf8_len(s.input) >= utf8_len(s.target),
    ensures
        s.complete_after(elapsed),
{
}

proof fn lemma_matches_below_prefix(a1: Seq<char>, a2: Seq<char>, t1: Seq<char>, t2: Seq<char>, k: int)
    requires
        a1.len() == t1.len(),
        0 <= k <= a1.len(),
    ensures
        matches_below(a1 + a2, t1 + t2, k) == matches_below(a1, t1, k),
    decreases k,
{
    if k > 0 {
        lemma_matches_below_prefix(a1, a2, t1, t2, k - 1);
        assert((a1 + a2)[k - 1] == a1[k - 1]);
        assert((t1 + t2)[k - 1] == t1[k - 1]);
    }
}

proof fn lemma_matches_below_suffix(a1: Seq<char>, a2: Seq<char>, t1: Seq<char>, t2: Seq<char>, m: int)
    requires
        a1.len() == t1.len(),
        0 <= m <= a2.len(),
        m <= t2.len(),
    ensures
        matches_below(a1 + a2, t1 + t2, a1.len() + m) == matches_below(a1, t1, a1.len() as int)
            + matches_below(a2, t2, m),
    decreases m,
{
    if m == 0 {
        lemma_matches_below_prefix(a1, a2, t1, t2, a1.len() as int);
    } else {
        lemma_matches_below_suffix(a1, a2, t1, t2, m - 1);
        assert((a1 + a2)[a1.len() + m - 1] == a2[m - 1]);
        assert((t1 + t2)[a1.len() + m - 1] == t2[m - 1]);
    }
}

/// Scoring is position by position: the correct characters of two typed
/// pieces against two target pieces of the same lengths add up. So a typo
/// in one piece never costs a correct character in the other.
pub proof fn lemma_correct_chars_add_up(a1: Seq<char>, a2: Seq<char>, t1: Seq<char>, t2: Seq<char>)
    requires
        a1.len() == t1.len(),
    ensures
        correct_chars(a1 + a2, t1 + t2) == correct_chars(a1, t1) + correct_chars(a2, t2),
{
    let m = if a2.len() < t2.len() {
        a2.len() as int
    } else {
        t2.len() as int
    };
    lemma_matches_below_suffix(a1, a2, t1, t2, m);
}

/// One typed character against one target character is correct exactly when
/// they are equal; nothing typed scores nothing.
pub proof fn lemma_correct_chars_single(x: char, y: char, target: Seq<char>)
    ensures
        correct_chars(seq![x], seq![y]) == if x == y {
            1nat
        } else {
            0nat
        },
        correct_chars(Seq::empty(), target) == 0,
{
    assert(matches_below(seq![x], seq![y], 0) == 0);
}

proof fn lemma_matches_below_update(a: Seq<char>, t: Seq<char>, k: int, c: char, n: int)
    requires
        0 <= k < a.len(),
        0 <= n <= a.len(),
        n <= t.len(),
    ensures
        matches_below(a.update(k, c), t, n) <= matches_below(a, t, n) + 1,
        matches_below(a, t, n) <= matches_below(a.update(k, c), t, n) + 1,
        n <= k ==> matches_below(a.update(k, c), t, n) == matches_below(a, t, n),
    decreases n,
{
    if n > 0 {
        lemma_matches_below_update(a, t, k, c, n - 1);
        if n - 1 != k {
            assert(a.update(k, c)[n - 1] == a[n - 1]);
        }
    }
}

/// Changing one typed character changes the number of correct characters
/// by at most one.
pub proof fn lemma_one_change_costs_at_most_one(input: Seq<char>, target: Seq<char>, k: int, c: char)
    requires
        0 <= k < input.len(),
    ensures
        correct_chars(input.update(k, c), target) <= correct_chars(input, target) + 1,
        correct_chars(input, target) <= correct_chars(input.update(k, c), target) + 1,
{
    let n = if input.len() < target.len() {
        input.len() as int
    } else {
        target.len() as int
    };
    lemma_matches_below_update(input, target, k, c, n);
}

/// A single typo in text typed in full costs exactly one correct character.
pub proof fn lemma_single_typo(target: Seq<char>, k: int, c: char)
    requires
        0 <= k < target.len(),
        c != target[k],
    ensures
        correct_chars(target.update(k, c), target) == target.len() - 1,
{
    let t1 = target.take(k);
    let t2 = target.skip(k);
    let a2 = t2.update(0, c);
    assert(target.update(k, c) =~= t1 + a2);
    assert(target =~= t1 + t2);
    lemma_correct_chars_add_up(t1, a2, t1, t2);
    lemma_exact_typing_all_correct(t1);
    let a3 = t2.skip(1);
    assert(a2 =~= seq![c] + a3);
    assert(t2 =~= seq![target[k]] + a3);
    lemma_correct_chars_add_up(seq![c], a3, seq![target[k]], a3);
    lemma_correct_chars_single(c, target[k], a3);
    lemma_exact_typing_all_correct(a3);
}

proof fn lemma_last_flag_is_last(flags: Seq<bool>, lo: int, hi: int)
    ensures
        last_flag_in(flags, lo, hi) matches Some(p) ==> forall|q: int| p < q < hi ==> !flags[q],
    decreases hi - lo,
{
    if lo < hi && !flags[hi - 1] {
        lemma_last_flag_is_last(flags, lo, hi - 1);
    }
}

/// The window of a line that starts at `start`: up to `width` characters.
pub open spec fn line_window_end(len: int, start: int, width: int) -> int {
    if start + width < len {
        start + width
    } else {
        len
    }
}

/// Where a line ends, said without `line_end`: a line that meets a newline
/// within its window ends just after the first one; a line that meets none
/// and is followed by more text ends just after the last whitespace of its
/// window, with no whitespace after it in the window, or at the window's end
/// when the window has no whitespace; a line that reaches the end of the
/// text ends there.
pub proof fn lemma_line_break_rule(chars: Seq<char>, spaces: Seq<bool>, start: int, width: int)
    requires
        0 <= start < chars.len(),
        width >= 1,
    ensures
        ({
            let e = line_end(chars, spaces, start, width);
            let lim = line_window_end(chars.len() as int, start, width);
            &&& (exists|k: int| start <= k < lim && chars[k] == '\n') ==> chars[e - 1] == '\n'
                && forall|k: int| start <= k < e - 1 ==> chars[k] != '\n'
            &&& (forall|k: int| start <= k < lim ==> chars[k] != '\n') && lim < chars.len() && (
            exists|k: int| start <= k < lim && spaces[k]) ==> start < e <= lim && spaces[e - 1]
                && forall|p: int| e <= p < lim ==> !spaces[p]
            &&& (forall|k: int| start <= k < lim ==> chars[k] != '\n') && lim < chars.len() && (
            forall|k: int| start <= k < lim ==> !spaces[k]) ==> e == lim
            &&& (forall|k: int| start <= k < lim ==> chars[k] != '\n') && lim == chars.len() ==> e
                == lim
        }),
{
    let lim = line_window_end(chars.len() as int, start, width);
    lemma_first_newline_bounds(chars, start, lim);
    lemma_first_newline_is_first(chars, start, lim);
    lemma_last_flag_bounds(spaces, start, lim);
    lemma_last_flag_is_last(spaces, start, lim);
    if chars[start] == '\n' {
        assert(first_newline_in(chars, start, lim) == Some(start));
    }
}

proof fn lemma_lines_from_ends(chars: Seq<char>, spaces: Seq<bool>, width: int, start: int)
    requires
        width >= 1,
        0 <= start <= chars.len(),
    ensures
        forall|i: int|
            0 <= i < lines_from(chars, spaces, width, start).len() ==> {
                let r = #[trigger] lines_from(chars, spaces, width, start)[i];
                0 <= r.0 < chars.len() && r.1 == line_end(chars, spaces, r.0, width)
            },
    decreases chars.len() - start,
{
    if start < chars.len() {
        let end = line_end(chars, spaces, start, width);
        lemma_line_end_bounds(chars, spaces, start, width);
        lemma_lines_from_ends(chars, spaces, width, end);
        let rest = lines_from(chars, spaces, width, end);
        let r = lines_from(chars, spaces, width, start);
        assert(r == seq![(start, end)] + rest);
        assert forall|i: int| 0 <= i < r.len() implies {
            let x = #[trigger] r[i];
            0 <= x.0 < chars.len() && x.1 == line_end(chars, spaces, x.0, width)
        } by {
            if i > 0 {
                assert(r[i] == rest[i - 1]);
            }
        }
    }
}

/// Every line of a text follows the break rule: it ends just after the
/// first newline in its window; else, when text follows, just after the
/// last whitespace in its window (none after it in the window), or at the
/// window's end when the window has no whitespace; else at the text's end.
pub proof fn lemma_lines_break_after_last_space(chars: Seq<char>, spaces: Seq<bool>, width: int)
    requires
        width >= 1,
    ensures
        forall|i: int|
            0 <= i < text_line_ranges(chars, spaces, width).len() ==> {
                let r = #[trigger] text_line_ranges(chars, spaces, width)[i];
                let (s, e) = r;
                let lim = line_window_end(chars.len() as int, s, width);
                &&& (exists|k: int| s <= k < lim && chars[k] == '\n') ==> chars[e - 1] == '\n'
                &&& (forall|k: int| s <= k < lim ==> chars[k] != '\n') && lim < chars.len() && (
                exists|k: int| s <= k < lim && spaces[k]) ==> s < e <= lim && spaces[e - 1]
                    && forall|p: int| e <= p < lim ==> !spaces[p]
                &&& (forall|k: int| s <= k < lim ==> chars[k] != '\n') && lim < chars.len() && (
                forall|k: int| s <= k < lim ==> !spaces[k]) ==> e == lim
            },
{
    lemma_lines_from_ends(chars, spaces, width, 0);
    let r = text_line_ranges(chars, spaces, width);
    assert forall|i: int| 0 <= i < r.len() implies {
        let x = #[trigger] r[i];
        let (s, e) = x;
        let lim = line_window_end(chars.len() as int, s, width);
        &&& (exists|k: int| s <= k < lim && chars[k] == '\n') ==> chars[e - 1] == '\n'
        &&& (forall|k: int| s <= k < lim ==> chars[k] != '\n') && lim < chars.len() && (exists|
            k: int,
        | s <= k < lim && spaces[k]) ==> s < e <= lim && spaces[e - 1] && forall|p: int|
            e <= p < lim ==> !spaces[p]
        &&& (forall|k: int| s <= k < lim ==> chars[k] != '\n') && lim < chars.len() && (forall|
            k: int,
        | s <= k < lim ==> !spaces[k]) ==> e == lim
    } by {
        lemma_line_break_rule(chars, spaces, r[i].0, width);
    }
}

} // verus!
