//! The layout of the terminal screen and the lines drawn on it.
//!
//! The library decides what goes where; the lines it hands out are printed by
//! the program that owns the terminal.

use vstd::prelude::*;
use std::collections::VecDeque;
use unicode_width::{UnicodeWidthChar, UnicodeWidthStr};
use crate::text::push_char;

verus! {

broadcast use vstd::string::group_string_axioms;

/// The columns that `c` takes on the screen, as `unicode_width` reports them.
pub uninterp spec fn char_width(c: char) -> Option<usize>;

/// The columns that a string takes on the screen, as `unicode_width` reports them.
pub uninterp spec fn text_width(s: Seq<char>) -> usize;

/// `UnicodeWidthChar::width`. Its source returns `None` for the control
/// characters below U+0020 and from U+007F to U+009F, one column for the
/// other characters below U+007F, and for the rest a width read from a
/// table of bytes. Beyond those facts the width is left to the name
/// `char_width`.
#[verifier::external_body]
fn unicode_char_width(c: char) -> (r: Option<usize>)
    ensures
        r == char_width(c),
        (c < '\u{20}' || ('\u{7F}' <= c && c < '\u{A0}')) <==> r is None,
        ('\u{20}' <= c && c < '\u{7F}') ==> r == Some(1usize),
        r matches Some(w) ==> w <= 255,
{
    UnicodeWidthChar::width(c)
}

/// `UnicodeWidthStr::width`: the columns of a whole string, which for some
/// sequences (emoji, "\r\n", joiners) is not the sum of the widths of its
/// characters. The result is left to the name `text_width`.
#[verifier::external_body]
fn unicode_text_width(s: &str) -> (r: usize)
    ensures
        r == text_width(s@),
{
    UnicodeWidthStr::width(s)
}

/// Takes the last character out of `s` with `String::pop`.
#[verifier::external_body]
fn pop_char(s: &mut String) -> (r: Option<char>)
    ensures
        old(s)@.len() == 0 ==> r is None && final(s)@ == old(s)@,
        old(s)@.len() > 0 ==> r == Some(old(s)@.last()) && final(s)@ == old(s)@.drop_last(),
{
    s.pop()
}

/// The columns that `c` takes; a control character takes none.
pub open spec fn shown_width(c: char) -> nat {
    match char_width(c) {
        Some(w) => w as nat,
        None => 0,
    }
}

/// The columns of the first `k` characters of `s`, character by character.
pub open spec fn prefix_width(s: Seq<char>, k: int) -> nat
    decreases k,
{
    if k <= 0 || s.len() == 0 {
        0
    } else {
        shown_width(s[0]) + prefix_width(s.drop_first(), k - 1)
    }
}

/// The longest start of `s` that fits in `width` columns, cut at the first
/// character that would overflow.
pub open spec fn fit(s: Seq<char>, width: int) -> Seq<char>
    decreases s.len(),
{
    if s.len() == 0 || shown_width(s[0]) > width {
        Seq::empty()
    } else {
        seq![s[0]] + fit(s.drop_first(), width - shown_width(s[0]))
    }
}

/// `n` copies of `piece`, one after another.
pub open spec fn repeated(piece: Seq<char>, n: nat) -> Seq<char>
    decreases n,
{
    if n == 0 {
        Seq::empty()
    } else {
        repeated(piece, (n - 1) as nat) + piece
    }
}

/// `a - b`, or zero when `b` is larger.
pub open spec fn minus(a: int, b: int) -> nat {
    if a > b {
        (a - b) as nat
    } else {
        0
    }
}

/// `text` cut to `width` columns and filled up with spaces to the full width.
pub open spec fn padded(text: Seq<char>, width: nat) -> Seq<char> {
    let t = fit(text, width as int);
    t + repeated(" "@, minus(width as int, text_width(t) as int))
}

proof fn lemma_prefix_width_step(s: Seq<char>, k: int)
    requires
        0 <= k < s.len(),
    ensures
        prefix_width(s, k + 1) == prefix_width(s, k) + shown_width(s[k]),
    decreases k,
{
    if k > 0 {
        lemma_prefix_width_step(s.drop_first(), k - 1);
        assert(s.drop_first()[k - 1] == s[k]);
    } else {
        assert(prefix_width(s.drop_first(), 0) == 0);
    }
}

proof fn lemma_fit_prefix(s: Seq<char>, width: int, k: int)
    requires
        0 <= k <= s.len(),
        prefix_width(s, k) <= width,
        k == s.len() || prefix_width(s, k + 1) > width,
    ensures
        fit(s, width) == s.take(k),
    decreases k,
{
    if k == 0 {
        if s.len() > 0 {
            assert(prefix_width(s, 1) == shown_width(s[0]) + prefix_width(s.drop_first(), 0));
        }
        assert(s.take(0) =~= Seq::<char>::empty());
    } else {
        lemma_fit_prefix(s.drop_first(), width - shown_width(s[0]), k - 1);
        assert(s.take(k) =~= seq![s[0]] + s.drop_first().take(k - 1));
    }
}

/// `n` copies of `piece` in a new string.
pub(crate) fn repeat_str(piece: &str, n: usize) -> (r: String)
    ensures
        r@ == repeated(piece@, n as nat),
{
    let mut r = String::new();
    for i in 0..n
        invariant
            r@ == repeated(piece@, i as nat),
    {
        r.append(piece);
    }
    r
}

/// A rectangle of the screen.
#[derive(Clone, Copy, Debug, PartialEq, Eq, Structural)]
pub struct TermRegion {
    pub row: u16,
    pub col: u16,
    pub width: u16,
    pub height: u16,
}

/// A line to print: move to `col`, `row`, clear the line when `clear`, and
/// print `text`.
pub struct ScreenLine {
    pub col: u16,
    pub row: u16,
    pub clear: bool,
    pub text: String,
}

/// `line` writes `text` on row `offset` of `region`, cut and padded to its width.
pub open spec fn writes(line: ScreenLine, region: TermRegion, offset: int, text: Seq<char>) -> bool {
    &&& line.col == region.col
    &&& line.row == region.row + offset
    &&& !line.clear
    &&& line.text@ == padded(text, region.width as nat)
}

/// A player shown in a list.
pub struct PlayerDisplay {
    pub name: String,
    pub status: String,
}

/// What a key press completes.
pub enum KeyResult {
    Submitted(String),
    Exit,
}

/// The key of a key event.
pub enum Key {
    Char(char),
    Backspace,
    Enter,
    Other,
}

/// A key event: the key, whether it was pressed (not released or repeated),
/// and whether the control key was held.
pub struct KeyInput {
    pub key: Key,
    pub pressed: bool,
    pub control: bool,
}

/// The regions of a screen of `width` by `height`, from the top: title,
/// subtitle, separator, the players on the left, the log and the players on
/// the right side by side, separator, second title, second subtitle,
/// separator, instruction, separator, input.
pub struct Layout {
    pub title: TermRegion,
    pub subtitle: TermRegion,
    pub sep1: TermRegion,
    pub players_l: TermRegion,
    pub log: TermRegion,
    pub players_r: TermRegion,
    pub sep2: TermRegion,
    pub title2: TermRegion,
    pub subtitle2: TermRegion,
    pub sep3: TermRegion,
    pub instruction: TermRegion,
    pub sep4: TermRegion,
    pub input: TermRegion,
}

/// A full-width region of one row.
pub open spec fn row_region(row: int, width: u16) -> TermRegion {
    TermRegion { row: row as u16, col: 0, width, height: 1 }
}

/// The layout that a screen of `width` by `height` gets: three tenths of the
/// width, rounded down, for each player list, the rest for the log between.
pub open spec fn layout_of(width: u16, height: u16, l: Layout) -> bool {
    let mid_bottom = height - 7;
    let mid_height = minus(mid_bottom, 3);
    let player_width = width * 3 / 10;
    let log_width = width - 2 * player_width;
    &&& l.title == row_region(0, width)
    &&& l.subtitle == row_region(1, width)
    &&& l.sep1 == row_region(2, width)
    &&& l.players_l == (TermRegion { row: 3, col: 0, width: player_width as u16, height: mid_height as u16 })
    &&& l.log == (TermRegion { row: 3, col: player_width as u16, width: log_width as u16, height: mid_height as u16 })
    &&& l.players_r == (TermRegion {
        row: 3,
        col: (player_width + log_width) as u16,
        width: player_width as u16,
        height: mid_height as u16,
    })
    &&& l.sep2 == row_region(mid_bottom, width)
    &&& l.title2 == row_region(mid_bottom + 1, width)
    &&& l.subtitle2 == row_region(mid_bottom + 2, width)
    &&& l.sep3 == row_region(mid_bottom + 3, width)
    &&& l.instruction == row_region(mid_bottom + 4, width)
    &&& l.sep4 == row_region(mid_bottom + 5, width)
    &&& l.input == row_region(height - 1, width)
}

/// A screen on which the layout can be computed: at least seven rows, and a
/// width whose triple fits in 16 bits.
pub open spec fn screen_fits(width: u16, height: u16) -> bool {
    height >= 7 && width * 3 <= u16::MAX
}

/// Whether the layout can be computed for a screen of `width` by `height`.
pub fn screen_fits_now(width: u16, height: u16) -> (r: bool)
    ensures
        r == screen_fits(width, height),
{
    height >= 7 && width <= u16::MAX / 3
}

/// Computes the regions of a screen of `width` by `height`.
pub fn compute_regions(width: u16, height: u16) -> (l: Layout)
    requires
        screen_fits(width, height),
    ensures
        layout_of(width, height, l),
{
    let mid_top: u16 = 3;
    let mid_bottom = height - 7;
    let mid_height = mid_bottom.saturating_sub(mid_top);
    let content_width = width;
    let player_width = content_width * 3 / 10;
    let log_width = content_width - player_width * 2;
    let players_l = TermRegion { row: mid_top, col: 0, width: player_width, height: mid_height };
    let log = TermRegion {
        row: mid_top,
        col: players_l.col + players_l.width,
        width: log_width,
        height: mid_height,
    };
    let players_r = TermRegion {
        row: mid_top,
        col: log.col + log.width,
        width: player_width,
        height: mid_height,
    };
    Layout {
        title: TermRegion { row: 0, col: 0, width, height: 1 },
        subtitle: TermRegion { row: 1, col: 0, width, height: 1 },
        sep1: TermRegion { row: 2, col: 0, width, height: 1 },
        players_l,
        log,
        players_r,
        sep2: TermRegion { row: mid_bottom, col: 0, width, height: 1 },
        title2: TermRegion { row: mid_bottom + 1, col: 0, width, height: 1 },
        subtitle2: TermRegion { row: mid_bottom + 2, col: 0, width, height: 1 },
        sep3: TermRegion { row: mid_bottom + 3, col: 0, width, height: 1 },
        instruction: TermRegion { row: mid_bottom + 4, col: 0, width, height: 1 },
        sep4: TermRegion { row: mid_bottom + 5, col: 0, width, height: 1 },
        input: TermRegion { row: height - 1, col: 0, width, height: 1 },
    }
}

/// The longest start of `text` that fits in `width` columns.
pub fn fit_to_width(text: &str, width: usize) -> (r: String)
    ensures
        r@ == fit(text@, width as int),
{
    let n = text.unicode_len();
    let mut current_width: usize = 0;
    let mut k: usize = 0;
    while k < n
        invariant
            n == text@.len(),
            k <= n,
            current_width == prefix_width(text@, k as int),
            current_width <= width,
        decreases n - k,
    {
        let c = text.get_char(k);
        let char_width = match unicode_char_width(c) {
            Some(w) => w,
            None => 0,
        };
        proof {
            lemma_prefix_width_step(text@, k as int);
        }
        if char_width > width - current_width {
            proof {
                lemma_fit_prefix(text@, width as int, k as int);
            }
            let kept = text.substring_char(0, k);
            return String::from_str(kept);
        }
        current_width = current_width + char_width;
        k = k + 1;
    }
    proof {
        lemma_fit_prefix(text@, width as int, n as int);
        assert(text@.take(n as int) =~= text@);
    }
    String::from_str(text)
}

/// Writes `text` on row `offset` of `region`, cut and padded to its width.
pub fn write_region_line(region: &TermRegion, offset: u16, text: &str) -> (line: ScreenLine)
    requires
        region.row + offset <= u16::MAX,
    ensures
        writes(line, *region, offset as int, text@),
{
    let row = region.row + offset;
    let width = region.width as usize;
    let mut line = fit_to_width(text, width);
    let padding = width.saturating_sub(unicode_text_width(line.as_str()));
    let spaces = repeat_str(" ", padding);
    line.append(spaces.as_str());
    ScreenLine { col: region.col, row, clear: false, text: line }
}

/// A separator across `region`: its line cleared and drawn with `─`.
pub open spec fn separates(line: ScreenLine, region: TermRegion) -> bool {
    &&& line.col == region.col
    &&& line.row == region.row
    &&& line.clear
    &&& line.text@ == repeated("─"@, region.width as nat)
}

/// Draws a separator across `region`.
pub fn draw_separator(region: &TermRegion) -> (line: ScreenLine)
    ensures
        separates(line, *region),
{
    ScreenLine { col: region.col, row: region.row, clear: true, text: repeat_str("─", region.width as usize) }
}

/// The last `cap` of `lines`, or all of them when there are fewer.
pub open spec fn keep_last(lines: Seq<Seq<char>>, cap: nat) -> Seq<Seq<char>> {
    if lines.len() > cap {
        lines.skip(lines.len() - cap)
    } else {
        lines
    }
}

/// The screen of a terminal client: its size, its layout, the line being
/// typed and the log messages on show.
pub struct TermUi {
    pub width: u16,
    pub height: u16,
    pub layout: Layout,
    pub input_buffer: String,
    pub log_buffer: VecDeque<String>,
}

impl TermUi {
    /// The layout matches the size, and the log holds no more messages than
    /// its region has rows.
    pub open spec fn wf(self) -> bool {
        &&& screen_fits(self.width, self.height)
        &&& layout_of(self.width, self.height, self.layout)
        &&& self.log_buffer@.len() <= self.layout.log.height
    }

    /// The messages of the log, oldest first.
    pub open spec fn log_lines(self) -> Seq<Seq<char>> {
        self.log_buffer@.map_values(|m: String| m@)
    }

    /// What row `i` of the log region shows: the messages fill its bottom
    /// rows, each between two bars and cut to the width inside them.
    pub open spec fn log_row(self, i: int) -> Seq<char> {
        let lines = self.log_buffer@.len();
        let start = minus(self.layout.log.height as int, lines as int);
        let content = if i >= start { self.log_buffer@[i - start]@ } else { Seq::<char>::empty() };
        "│"@ + padded(content, minus(self.layout.log.width as int, 2)) + "│"@
    }

    /// `lines` draw the whole log region.
    pub open spec fn draws_log(self, lines: Seq<ScreenLine>) -> bool {
        &&& lines.len() == self.layout.log.height
        &&& forall|i: int| 0 <= i < lines.len() ==> writes(#[trigger] lines[i], self.layout.log, i, self.log_row(i))
    }

    /// The input line: a prompt, the text typed so far and a block cursor.
    pub open spec fn input_text(self) -> Seq<char> {
        "> "@ + self.input_buffer@ + "█"@
    }

    /// `line` draws the input line.
    pub open spec fn draws_input(self, line: ScreenLine) -> bool {
        &&& line.col == self.layout.input.col
        &&& line.row == self.layout.input.row
        &&& line.clear
        &&& line.text@ == self.input_text()
    }

    /// `lines` draw the four separators, in order from the top.
    pub open spec fn draws_separators(self, lines: Seq<ScreenLine>) -> bool {
        &&& lines.len() == 4
        &&& separates(lines[0], self.layout.sep1)
        &&& separates(lines[1], self.layout.sep2)
        &&& separates(lines[2], self.layout.sep3)
        &&& separates(lines[3], self.layout.sep4)
    }

    /// `lines` redraw the screen after a resize: separators, log, input line.
    pub open spec fn draws_frame(self, lines: Seq<ScreenLine>) -> bool {
        &&& lines.len() == 5 + self.layout.log.height
        &&& self.draws_separators(lines.take(4))
        &&& self.draws_log(lines.subrange(4, 4 + self.layout.log.height))
        &&& self.draws_input(lines.last())
    }

    /// A screen of `width` by `height` with an empty log and input, and the
    /// lines that draw its frame.
    pub fn new(width: u16, height: u16) -> (r: (TermUi, Vec<ScreenLine>))
        requires
            screen_fits(width, height),
        ensures
            r.0.wf(),
            r.0.width == width,
            r.0.height == height,
            r.0.input_buffer@ == Seq::<char>::empty(),
            r.0.log_buffer@.len() == 0,
            r.0.draws_frame(r.1@),
    {
        let mut tui = TermUi {
            width,
            height,
            layout: compute_regions(width, height),
            input_buffer: String::new(),
            log_buffer: VecDeque::new(),
        };
        let lines = tui.on_resize(width, height);
        (tui, lines)
    }

    /// Writes the title at the top.
    pub fn set_top_title(&self, text: &str) -> (line: ScreenLine)
        ensures
            writes(line, self.layout.title, 0, text@),
    {
        write_region_line(&self.layout.title, 0, text)
    }

    /// Writes the subtitle at the top.
    pub fn set_top_subtitle(&self, text: &str) -> (line: ScreenLine)
        ensures
            writes(line, self.layout.subtitle, 0, text@),
    {
        write_region_line(&self.layout.subtitle, 0, text)
    }

    /// Writes the title at the bottom.
    pub fn set_bot_title(&self, text: &str) -> (line: ScreenLine)
        ensures
            writes(line, self.layout.title2, 0, text@),
    {
        write_region_line(&self.layout.title2, 0, text)
    }

    /// Writes the subtitle at the bottom.
    pub fn set_bot_subtitle(&self, text: &str) -> (line: ScreenLine)
        ensures
            writes(line, self.layout.subtitle2, 0, text@),
    {
        write_region_line(&self.layout.subtitle2, 0, text)
    }

    /// Writes the instruction above the input line.
    pub fn set_instruction(&self, text: &str) -> (line: ScreenLine)
        ensures
            writes(line, self.layout.instruction, 0, text@),
    {
        write_region_line(&self.layout.instruction, 0, text)
    }

    /// Draws the four separators.
    pub fn draw_all_separators(&self) -> (lines: Vec<ScreenLine>)
        ensures
            self.draws_separators(lines@),
    {
        let mut lines = Vec::new();
        lines.push(draw_separator(&self.layout.sep1));
        lines.push(draw_separator(&self.layout.sep2));
        lines.push(draw_separator(&self.layout.sep3));
        lines.push(draw_separator(&self.layout.sep4));
        lines
    }

    /// Draws the input line.
    pub fn draw_input_line(&self) -> (line: ScreenLine)
        ensures
            self.draws_input(line),
    {
        let mut full = String::from_str("> ");
        full.append(self.input_buffer.as_str());
        full.append("█");
        ScreenLine { col: self.layout.input.col, row: self.layout.input.row, clear: true, text: full }
    }

    /// Handles a key: Control-C exits; a character is typed; backspace
    /// erases the last character; enter submits the line typed so far, when
    /// there is one. Anything else, and any key that is not a press, does nothing.
    pub fn handle_key(&mut self, key: &KeyInput) -> (r: Option<KeyResult>)
        ensures
            final(self).width == old(self).width,
            final(self).height == old(self).height,
            final(self).layout == old(self).layout,
            final(self).log_buffer@ == old(self).log_buffer@,
            final(self).input_buffer@ == edited(old(self).input_buffer@, *key),
            is_exit(*key) <==> r matches Some(KeyResult::Exit),
            submits(old(self).input_buffer@, *key) <==> r matches Some(KeyResult::Submitted(_)),
            r matches Some(KeyResult::Submitted(line)) ==> line@ == old(self).input_buffer@,
    {
        if !key.pressed {
            return None;
        }
        if key.control {
            if let Key::Char(c) = key.key {
                if c == 'c' {
                    return Some(KeyResult::Exit);
                }
            }
        }
        match key.key {
            Key::Char(c) => {
                push_char(&mut self.input_buffer, c);
                return None;
            },
            Key::Backspace => {
                pop_char(&mut self.input_buffer);
                return None;
            },
            Key::Enter => {
                if self.input_buffer.unicode_len() == 0 {
                    return None;
                }
                let mut submitted = String::new();
                std::mem::swap(&mut submitted, &mut self.input_buffer);
                return Some(KeyResult::Submitted(submitted));
            },
            Key::Other => {},
        }
        None
    }
}

proof fn lemma_keep_last_push(lines: Seq<Seq<char>>, x: Seq<char>, cap: nat)
    ensures
        keep_last(keep_last(lines, cap).push(x), cap) == keep_last(lines.push(x), cap),
{
    if lines.len() > cap {
        assert(keep_last(lines, cap).push(x).len() == cap + 1);
        if cap + 1 > cap {
            assert(keep_last(keep_last(lines, cap).push(x), cap) =~= keep_last(lines.push(x), cap));
        }
    } else {
        assert(keep_last(lines, cap) == lines);
    }
}

/// The log lines after adding each line of `added` in turn, as `push_log`
/// adds one: the line goes at the end and only the last `cap` lines stay.
pub open spec fn pushed_one_by_one(lines: Seq<Seq<char>>, added: Seq<Seq<char>>, cap: nat) -> Seq<Seq<char>>
    decreases added.len(),
{
    if added.len() == 0 {
        lines
    } else {
        keep_last(pushed_one_by_one(lines, added.drop_last(), cap).push(added.last()), cap)
    }
}

/// Adding messages with `push_logs` leaves the log that `push_log` leaves
/// when called for each message in order: for a log within its `cap` rows,
/// adding the lines one by one keeps the last `cap` of all lines together.
pub proof fn lemma_push_logs_one_by_one(lines: Seq<Seq<char>>, added: Seq<Seq<char>>, cap: nat)
    requires
        lines.len() <= cap,
    ensures
        pushed_one_by_one(lines, added, cap) == keep_last(lines + added, cap),
    decreases added.len(),
{
    if added.len() == 0 {
        assert(lines + added =~= lines);
    } else {
        let init = added.drop_last();
        lemma_push_logs_one_by_one(lines, init, cap);
        lemma_keep_last_push(lines + init, added.last(), cap);
        assert((lines + init).push(added.last()) =~= lines + added);
    }
}

impl TermUi {
    /// Drops the oldest messages until the log fits `cap` rows.
    fn trim_log(&mut self, cap: usize)
        ensures
            final(self).width == old(self).width,
            final(self).height == old(self).height,
            final(self).layout == old(self).layout,
            final(self).input_buffer@ == old(self).input_buffer@,
            final(self).log_lines() == keep_last(old(self).log_lines(), cap as nat),
            final(self).log_buffer@.len() <= cap,
    {
        let ghost all = self.log_lines();
        let ghost mut k: int = 0;
        proof {
            assert(self.log_lines().skip(0) =~= self.log_lines());
        }
        while self.log_buffer.len() > cap
            invariant
                self.width == old(self).width,
                self.height == old(self).height,
                self.layout == old(self).layout,
                self.input_buffer@ == old(self).input_buffer@,
                all == old(self).log_lines(),
                0 <= k <= all.len(),
                self.log_lines() == all.skip(k),
                self.log_buffer@.len() == all.len() - k,
                all.len() > cap ==> all.len() - k >= cap,
                all.len() <= cap ==> k == 0,
            decreases self.log_buffer@.len(),
        {
            let ghost before = self.log_buffer@;
            let ghost prev_lines = self.log_lines();
            self.log_buffer.pop_front();
            proof {
                assert(self.log_buffer@ =~= before.subrange(1, before.len() as int));
                assert forall|j: int| 0 <= j < self.log_lines().len() implies #[trigger] self.log_lines()[j] == all.skip(k + 1)[j] by {
                    assert(self.log_lines()[j] == self.log_buffer@[j]@);
                    assert(self.log_buffer@[j] == before[j + 1]);
                    assert(prev_lines[j + 1] == before[j + 1]@);
                    assert(prev_lines[j + 1] == all.skip(k)[j + 1]);
                }
                assert(self.log_lines() =~= all.skip(k + 1));
                k = k + 1;
            }
        }
        proof {
            if all.len() > cap {
                assert(k == all.len() - cap);
            } else {
                assert(all.skip(0) =~= all);
            }
        }
    }

    /// Adds `text` to the log, dropping the oldest messages beyond the rows of
    /// the log region, and redraws the log.
    pub fn push_log(&mut self, text: &str) -> (lines: Vec<ScreenLine>)
        requires
            old(self).wf(),
        ensures
            final(self).wf(),
            final(self).width == old(self).width,
            final(self).height == old(self).height,
            final(self).layout == old(self).layout,
            final(self).input_buffer@ == old(self).input_buffer@,
            final(self).log_lines() == keep_last(old(self).log_lines().push(text@), old(self).layout.log.height as nat),
            final(self).draws_log(lines@),
    {
        let cap = self.layout.log.height as usize;
        let ghost before = self.log_buffer@;
        self.log_buffer.push_back(String::from_str(text));
        proof {
            assert(self.log_lines() =~= old(self).log_lines().push(text@));
        }
        self.trim_log(cap);
        self.render_log()
    }

    /// Adds `messages` to the log, in order, dropping the oldest messages
    /// beyond the rows of the log region, and redraws the log.
    pub fn push_logs(&mut self, messages: Vec<String>) -> (lines: Vec<ScreenLine>)
        requires
            old(self).wf(),
        ensures
            final(self).wf(),
            final(self).width == old(self).width,
            final(self).height == old(self).height,
            final(self).layout == old(self).layout,
            final(self).input_buffer@ == old(self).input_buffer@,
            final(self).log_lines() == keep_last(
                old(self).log_lines() + messages@.map_values(|m: String| m@),
                old(self).layout.log.height as nat,
            ),
            final(self).draws_log(lines@),
    {
        let capacity = self.layout.log.height as usize;
        let ghost start = self.log_lines();
        let ghost added = messages@.map_values(|m: String| m@);
        proof {
            assert(start + added.take(0) =~= start);
            assert(keep_last(start, capacity as nat) == start);
        }
        for i in 0..messages.len()
            invariant
                self.wf(),
                self.width == old(self).width,
                self.height == old(self).height,
                self.layout == old(self).layout,
                self.input_buffer@ == old(self).input_buffer@,
                capacity == self.layout.log.height,
                start == old(self).log_lines(),
                added == messages@.map_values(|m: String| m@),
                self.log_lines() == keep_last(start + added.take(i as int), capacity as nat),
        {
            let message = messages[i].clone();
            let ghost prev = self.log_lines();
            self.log_buffer.push_back(message);
            proof {
                assert(self.log_lines() =~= prev.push(added[i as int]));
                assert(start + added.take(i + 1) =~= (start + added.take(i as int)).push(added[i as int]));
                lemma_keep_last_push(start + added.take(i as int), added[i as int], capacity as nat);
            }
            self.trim_log(capacity);
        }
        proof {
            assert(added.take(messages.len() as int) =~= added);
        }
        self.render_log()
    }

    /// Draws every row of the log region.
    pub fn render_log(&self) -> (lines: Vec<ScreenLine>)
        requires
            self.wf(),
        ensures
            self.draws_log(lines@),
    {
        let count = self.log_buffer.len();
        let height = self.layout.log.height as usize;
        let start = height.saturating_sub(count);
        let inner_width = (self.layout.log.width as usize).saturating_sub(2);
        let mut out: Vec<ScreenLine> = Vec::new();
        for i in 0..height
            invariant
                self.wf(),
                height == self.layout.log.height,
                count == self.log_buffer@.len(),
                start == minus(height as int, count as int),
                inner_width == minus(self.layout.log.width as int, 2),
                out.len() == i,
                forall|j: int| 0 <= j < i ==> writes(#[trigger] out@[j], self.layout.log, j, self.log_row(j)),
        {
            let empty = String::new();
            let content: &str = if i >= start {
                self.log_buffer[i - start].as_str()
            } else {
                empty.as_str()
            };
            let text = fit_to_width(content, inner_width);
            let padding = inner_width.saturating_sub(unicode_text_width(text.as_str()));
            let mut line = String::from_str("│");
            line.append(text.as_str());
            line.append(repeat_str(" ", padding).as_str());
            line.append("│");
            assert(line@ == self.log_row(i as int));
            out.push(write_region_line(&self.layout.log, i as u16, line.as_str()));
        }
        out
    }

    /// Draws a player list in `region`: every row cleared, the title on the
    /// first row, a blank row, then one row per player, name and status, as
    /// many as the region holds.
    pub fn render_players(region: &TermRegion, title: &str, player_infos: &[PlayerDisplay]) -> (lines: Vec<ScreenLine>)
        requires
            region.height >= 2,
            region.row + region.height - 1 <= u16::MAX,
        ensures
            draws_players(*region, title@, shown(player_infos@), lines@),
    {
        let mut out: Vec<ScreenLine> = Vec::new();
        let blank = String::new();
        for row in 0..region.height
            invariant
                region.row + region.height - 1 <= u16::MAX,
                blank@ == Seq::<char>::empty(),
                out.len() == row,
                forall|r: int| 0 <= r < row ==> writes(#[trigger] out@[r], *region, r, Seq::<char>::empty()),
        {
            out.push(write_region_line(region, row, blank.as_str()));
        }
        out.push(write_region_line(region, 0, title));
        out.push(write_region_line(region, 1, blank.as_str()));

        let max_players = region.height as usize - 2;
        let visible = if player_infos.len() < max_players { player_infos.len() } else { max_players };
        let h = region.height as usize;
        for index in 0..visible
            invariant
                h == region.height,
                h >= 2,
                region.row + region.height - 1 <= u16::MAX,
                visible == shown_players(h as int, player_infos@.len() as int),
                visible <= player_infos@.len(),
                blank@ == Seq::<char>::empty(),
                out.len() == h + 2 + index,
                forall|r: int| 0 <= r < h ==> writes(#[trigger] out@[r], *region, r, Seq::<char>::empty()),
                writes(out@[h as int], *region, 0, title@),
                writes(out@[h + 1], *region, 1, Seq::<char>::empty()),
                forall|j: int| 0 <= j < index ==> writes(
                    #[trigger] out@[h + 2 + j],
                    *region,
                    2 + j,
                    player_infos@[j].name@ + " "@ + player_infos@[j].status@,
                ),
        {
            let row = 2 + index;
            let player = &player_infos[index];
            let mut text = player.name.clone();
            text.append(" ");
            text.append(player.status.as_str());
            out.push(write_region_line(region, row as u16, text.as_str()));
        }
        out
    }

    /// Draws the player list on the left.
    pub fn set_players_l(&self, title: &str, player_infos: &[PlayerDisplay]) -> (lines: Vec<ScreenLine>)
        requires
            self.wf(),
            self.layout.players_l.height >= 2,
        ensures
            draws_players(self.layout.players_l, title@, shown(player_infos@), lines@),
    {
        Self::render_players(&self.layout.players_l, title, player_infos)
    }

    /// Draws the player list on the right.
    pub fn set_players_r(&self, title: &str, player_infos: &[PlayerDisplay]) -> (lines: Vec<ScreenLine>)
        requires
            self.wf(),
            self.layout.players_r.height >= 2,
        ensures
            draws_players(self.layout.players_r, title@, shown(player_infos@), lines@),
    {
        Self::render_players(&self.layout.players_r, title, player_infos)
    }

    /// Takes a new size: computes the layout again, drops the oldest log
    /// messages beyond the rows of the new log region, and redraws the frame.
    pub fn on_resize(&mut self, width: u16, height: u16) -> (lines: Vec<ScreenLine>)
        requires
            screen_fits(width, height),
        ensures
            final(self).wf(),
            final(self).width == width,
            final(self).height == height,
            final(self).input_buffer@ == old(self).input_buffer@,
            final(self).log_lines() == keep_last(old(self).log_lines(), final(self).layout.log.height as nat),
            final(self).draws_frame(lines@),
    {
        self.width = width;
        self.height = height;
        self.layout = compute_regions(width, height);
        let cap = self.layout.log.height as usize;
        self.trim_log(cap);
        let mut lines = self.draw_all_separators();
        let mut log_lines = self.render_log();
        lines.append(&mut log_lines);
        lines.push(self.draw_input_line());
        lines
    }
}

/// `lines` draw a player list in `region`: every row cleared, the title on
/// the first row, a blank row, then one row per player, name and status, as
/// many as the region holds.
pub open spec fn draws_players(
    region: TermRegion,
    title: Seq<char>,
    players: Seq<(Seq<char>, Seq<char>)>,
    lines: Seq<ScreenLine>,
) -> bool {
    let shown = shown_players(region.height as int, players.len() as int);
    &&& lines.len() == region.height + 2 + shown
    &&& forall|r: int| 0 <= r < region.height ==> writes(#[trigger] lines[r], region, r, Seq::<char>::empty())
    &&& writes(lines[region.height as int], region, 0, title)
    &&& writes(lines[region.height + 1], region, 1, Seq::<char>::empty())
    &&& forall|j: int| 0 <= j < shown ==> writes(
        #[trigger] lines[region.height + 2 + j],
        region,
        2 + j,
        players[j].0 + " "@ + players[j].1,
    )
}

/// The name and status of each shown player.
pub open spec fn shown(players: Seq<PlayerDisplay>) -> Seq<(Seq<char>, Seq<char>)> {
    players.map_values(|p: PlayerDisplay| (p.name@, p.status@))
}

/// How many players a list region of `height` rows shows out of `count`.
pub open spec fn shown_players(height: int, count: int) -> int {
    if count < height - 2 {
        count
    } else {
        height - 2
    }
}

/// Control-C pressed: the key that quits.
pub open spec fn is_exit(key: KeyInput) -> bool {
    key.pressed && key.control && key.key == Key::Char('c')
}

/// Enter pressed on a line that holds something: the line is submitted.
pub open spec fn submits(buffer: Seq<char>, key: KeyInput) -> bool {
    key.pressed && !is_exit(key) && key.key is Enter && buffer.len() > 0
}

/// The line being typed after `key`.
pub open spec fn edited(buffer: Seq<char>, key: KeyInput) -> Seq<char> {
    if !key.pressed || is_exit(key) {
        buffer
    } else {
        match key.key {
            Key::Char(c) => buffer.push(c),
            Key::Backspace => if buffer.len() == 0 { buffer } else { buffer.drop_last() },
            Key::Enter => if buffer.len() == 0 { buffer } else { Seq::empty() },
            Key::Other => buffer,
        }
    }
}

/// What each key does to the line being typed: a character typed (but for
/// Control-C) goes at the end; a backspace takes off the last character, if
/// any; Enter empties a line that holds something, which is then submitted; a
/// released key, Control-C and other keys leave the line as it is.
pub proof fn lemma_edited_by_key(buffer: Seq<char>, key: KeyInput)
    ensures
        !key.pressed ==> edited(buffer, key) == buffer,
        key.pressed && key.key is Char && !(key.control && key.key == Key::Char('c')) ==> edited(buffer, key)
            == buffer + seq![key.key->Char_0],
        key.pressed && key.control && key.key == Key::Char('c') ==> edited(buffer, key) == buffer,
        key.pressed && key.key is Backspace && buffer.len() > 0 ==> edited(buffer, key) == buffer.subrange(
            0,
            buffer.len() - 1,
        ),
        key.pressed && key.key is Backspace && buffer.len() == 0 ==> edited(buffer, key).len() == 0,
        key.pressed && key.key is Enter ==> edited(buffer, key).len() == 0,
        key.pressed && key.key is Other ==> edited(buffer, key) == buffer,
        submits(buffer, key) <==> key.pressed && key.key is Enter && buffer.len() > 0,
        is_exit(key) <==> key.pressed && key.control && key.key == Key::Char('c'),
{
    if key.pressed && key.key is Char {
        assert(buffer.push(key.key->Char_0) =~= buffer + seq![key.key->Char_0]);
    }
    if key.pressed && key.key is Backspace && buffer.len() > 0 {
        assert(buffer.drop_last() =~= buffer.subrange(0, buffer.len() - 1));
    }
}

/// `piece` repeated `n` times: `n` pieces one after the other.
pub proof fn lemma_repeated_pieces(piece: Seq<char>, n: nat)
    ensures
        repeated(piece, n).len() == n * piece.len(),
        forall|k: int|
            0 <= k < n * piece.len() ==> #[trigger] repeated(piece, n)[k] == piece[k % (piece.len() as int)],
    decreases n,
{
    if n == 0 {
        assert(n * piece.len() == 0);
    } else {
        let m = (n - 1) as nat;
        lemma_repeated_pieces(piece, m);
        let len = piece.len() as int;
        assert(repeated(piece, n) == repeated(piece, m) + piece);
        assert(m * len + len == n * len) by (nonlinear_arith)
            requires
                m == n - 1,
        ;
        assert forall|k: int| 0 <= k < n * len implies #[trigger] repeated(piece, n)[k] == piece[k % len] by {
            if k < m * len {
                assert(repeated(piece, n)[k] == repeated(piece, m)[k]);
            } else {
                let b = k - m * len;
                assert(repeated(piece, n)[k] == piece[b]);
                vstd::arithmetic::div_mod::lemma_mod_multiples_vanish(m as int, b, len);
                vstd::arithmetic::div_mod::lemma_small_mod(b as nat, len as nat);
                assert(m * len + b == k);
                assert(len * m == m * len) by (nonlinear_arith);
            }
        }
    }
}

/// A backspace takes back the character typed just before.
pub proof fn lemma_backspace_undoes_typing(buffer: Seq<char>, typed: KeyInput, erase: KeyInput)
    requires
        typed.pressed,
        !typed.control,
        typed.key is Char,
        erase.pressed,
        erase.key is Backspace,
    ensures
        edited(edited(buffer, typed), erase) == buffer,
{
    assert(buffer.push(typed.key->Char_0).drop_last() =~= buffer);
}

/// Submitting a line leaves the input empty.
pub proof fn lemma_submit_clears(buffer: Seq<char>, key: KeyInput)
    requires
        submits(buffer, key),
    ensures
        edited(buffer, key) == Seq::<char>::empty(),
{
}

/// The three middle regions lie side by side and span the whole width, the
/// rows follow each other from top to bottom, and the input is the last row.
/// (On a screen of fewer than ten rows the middle regions get no rows and the
/// second separator moves up over the first rows.)
pub proof fn lemma_layout_tiles(width: u16, height: u16, l: Layout)
    requires
        screen_fits(width, height),
        height >= 10,
        layout_of(width, height, l),
    ensures
        l.players_l.col == 0,
        l.log.col == l.players_l.col + l.players_l.width,
        l.players_r.col == l.log.col + l.log.width,
        l.players_l.width + l.log.width + l.players_r.width == width,
        l.players_l.width == l.players_r.width,
        l.players_l.row + l.players_l.height <= l.sep2.row,
        l.sep2.row < l.title2.row < l.subtitle2.row < l.sep3.row < l.instruction.row < l.sep4.row < l.input.row,
        l.input.row == height - 1,
{
}

/// Text cut to a width never takes more columns than that width, and is a
/// start of the text.
pub proof fn lemma_fit_fits(s: Seq<char>, width: int)
    requires
        width >= 0,
    ensures
        prefix_width(fit(s, width), fit(s, width).len() as int) <= width,
        fit(s, width).len() <= s.len(),
        fit(s, width) == s.take(fit(s, width).len() as int),
    decreases s.len(),
{
    if s.len() == 0 || shown_width(s[0]) > width {
        assert(s.take(0) =~= fit(s, width));
    } else {
        let rest = s.drop_first();
        let w = width - shown_width(s[0]);
        lemma_fit_fits(rest, w);
        let f = fit(s, width);
        assert(f =~= seq![s[0]] + fit(rest, w));
        assert(f.drop_first() =~= fit(rest, w));
        assert(prefix_width(f, f.len() as int) == shown_width(s[0]) + prefix_width(fit(rest, w), fit(rest, w).len() as int));
        assert(f == s.take(f.len() as int)) by {
            assert(s.take(f.len() as int) =~= seq![s[0]] + rest.take(fit(rest, w).len() as int));
        }
    }
}

} // verus!
