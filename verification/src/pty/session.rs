//! The proxy's decisions, key by key: what each keystroke does to the line
//! being edited and to the popup, which bytes go to the shell, what is drawn,
//! and when completions are needed. The caller performs the I/O and hands the
//! completions back.
use crate::completion::matcher::ScoredCandidate;
use crate::completion::spec::CandidateKind;
use crate::input::line::{
    insert_cursor_of, insert_erase_of, insert_text_of, kill_word_start, span_cursor, span_start,
    splice, CompletionEdit, CompletionText, LineState,
};
use crate::input::parser::{
    completion_edit_context, lemma_edit_context_bounds, spec_edit_context, spec_quote_mode, QuoteMode,
};
use crate::input::trigger::InputAction;
use crate::pty::proxy::{sat_sub, track_from, track_view, try_track_pty_output};
use crate::shell::detect::ShellType;
use crate::shell::escape::{escape_fallback_completion, escaped};
use crate::text::{char_is_whitespace, is_unicode_whitespace, utf8_len_of};
use crate::ui::popup::{
    first_named, lemma_next_prev_undo, next_index, prev_index, scrolled_offset, PopupState, PopupView,
};
use crate::ui::render::{imin, layout_fits, spec_layout, PopupLayout, PopupRenderer, Theme};
use vstd::prelude::*;
use vstd::utf8::{decode_utf8, encode_utf8, valid_utf8};

verus! {

/// Whether the popup is showing.
#[derive(Debug, Clone, Copy, PartialEq, Eq, Structural)]
pub enum Mode {
    /// Normal passthrough: all input goes to the shell.
    Passthrough,
    /// The popup is showing: navigation keys are intercepted.
    PopupActive,
}

/// Work the caller does next.
#[derive(Debug, Clone, Copy, PartialEq, Eq, Structural)]
pub enum Need {
    Nothing,
    /// Complete the text before the cursor and hand the result to `open_with`.
    Open,
    /// Complete the text before the cursor and hand the result to `refresh_with`.
    Refresh,
}

/// Output of a decision.
#[derive(Debug)]
pub enum Effect {
    /// Bytes for the shell.
    Pty(Vec<u8>),
    /// Draw the popup (its items are the session's) with this layout.
    Draw(PopupLayout),
    /// Blank the `lines` rows that a popup drawn for a cursor on `row`
    /// occupied, from column `col`.
    Clear { row: u16, col: u16, lines: u16 },
}

pub enum EffectView {
    Pty(Seq<u8>),
    Draw(PopupLayout),
    Clear(u16, u16, u16),
}

pub open spec fn effect_view(e: Effect) -> EffectView {
    match e {
        Effect::Pty(b) => EffectView::Pty(b@),
        Effect::Draw(l) => EffectView::Draw(l),
        Effect::Clear { row, col, lines } => EffectView::Clear(row, col, lines),
    }
}

pub open spec fn effects_view(v: Seq<Effect>) -> Seq<EffectView> {
    v.map_values(|e: Effect| effect_view(e))
}

/// Where the cursor is when `pos` characters follow the start of the line at
/// (`start_row`, `start_col`) on a `cols` x `rows` terminal.
pub open spec fn spec_cursor_position(pos: int, start_row: u16, start_col: u16, cols: u16, rows: u16) -> (
    u16,
    u16,
) {
    if cols == 0 {
        (start_row, start_col)
    } else {
        let abs = start_col + pos;
        (imin(start_row + abs / (cols as int), sat_sub(rows, 1) as int) as u16, (abs % (cols as int)) as u16)
    }
}

pub fn cursor_position_from_line(
    line_state: &LineState,
    line_start_row: u16,
    line_start_col: u16,
    term_cols: u16,
    term_rows: u16,
) -> (r: (u16, u16))
    ensures
        r == spec_cursor_position(line_state.pos(), line_start_row, line_start_col, term_cols, term_rows),
{
    if term_cols == 0 {
        return (line_start_row, line_start_col);
    }
    let before = line_state.before_cursor();
    let n = before.as_str().unicode_len();
    let absolute_col: u128 = line_start_col as u128 + n as u128;
    let row_limit: u128 = if term_rows >= 1 {
        (term_rows - 1) as u128
    } else {
        0
    };
    let down: u128 = line_start_row as u128 + absolute_col / term_cols as u128;
    let row: u128 = if down <= row_limit {
        down
    } else {
        row_limit
    };
    let col: u128 = absolute_col % term_cols as u128;
    (row as u16, col as u16)
}

/// `n` copies of `b`, one after another.
pub open spec fn repeat_bytes(b: Seq<u8>, n: nat) -> Seq<u8>
    decreases n,
{
    if n == 0 {
        Seq::<u8>::empty()
    } else {
        repeat_bytes(b, (n - 1) as nat) + b
    }
}

/// The forward-delete key.
pub open spec fn delete_key() -> Seq<u8> {
    seq![0x1bu8, 0x5bu8, 0x33u8, 0x7eu8]
}

/// The cursor-left key (ESC [ D).
pub open spec fn cursor_left_key() -> Seq<u8> {
    seq![0x1bu8, 0x5bu8, 0x44u8]
}

/// The keystrokes that make the shell perform an edit: forward deletes, then
/// backspaces, then the text, then cursor moves back into it.
pub open spec fn edit_keys(delete_left: nat, delete_right: nat, text: Seq<char>, move_left: nat) -> Seq<u8> {
    repeat_bytes(delete_key(), delete_right) + repeat_bytes(seq![0x7fu8], delete_left)
        + encode_utf8(text) + repeat_bytes(cursor_left_key(), move_left)
}

pub fn apply_completion_edit(edit: &CompletionEdit) -> (bytes: Vec<u8>)
    ensures
        bytes@ == edit_keys(
            edit.delete_left as nat,
            edit.delete_right as nat,
            edit.insert_text@,
            edit.move_left as nat,
        ),
{
    let mut bytes: Vec<u8> = Vec::new();
    let mut i: usize = 0;
    while i < edit.delete_right
        invariant
            i <= edit.delete_right,
            bytes@ == repeat_bytes(delete_key(), i as nat),
        decreases edit.delete_right - i,
    {
        bytes.push(0x1b);
        bytes.push(0x5b);
        bytes.push(0x33);
        bytes.push(0x7e);
        i = i + 1;
        assert(bytes@ =~= repeat_bytes(delete_key(), i as nat));
    }
    let ghost front = bytes@;
    let mut j: usize = 0;
    while j < edit.delete_left
        invariant
            j <= edit.delete_left,
            bytes@ == front + repeat_bytes(seq![0x7fu8], j as nat),
        decreases edit.delete_left - j,
    {
        bytes.push(0x7f);
        j = j + 1;
        assert(bytes@ =~= front + repeat_bytes(seq![0x7fu8], j as nat));
    }
    let text = edit.insert_text.as_str().as_bytes();
    let ghost middle = bytes@;
    let mut k: usize = 0;
    while k < text.len()
        invariant
            k <= text@.len(),
            bytes@ == middle + text@.subrange(0, k as int),
        decreases text@.len() - k,
    {
        bytes.push(text[k]);
        k = k + 1;
        assert(bytes@ =~= middle + text@.subrange(0, k as int));
    }
    assert(text@.subrange(0, text@.len() as int) =~= text@);
    let ghost typed = bytes@;
    let mut m: usize = 0;
    while m < edit.move_left
        invariant
            m <= edit.move_left,
            bytes@ == typed + repeat_bytes(cursor_left_key(), m as nat),
        decreases edit.move_left - m,
    {
        bytes.push(0x1b);
        bytes.push(0x5b);
        bytes.push(0x44);
        m = m + 1;
        assert(bytes@ =~= typed + repeat_bytes(cursor_left_key(), m as nat));
    }
    bytes
}

/// The proxy's state between events.
pub struct ProxySession {
    pub mode: Mode,
    pub line_state: LineState,
    pub popup: PopupState,
    pub renderer: PopupRenderer,
    pub shell_type: ShellType,
    /// Characters of the word the popup completes.
    pub popup_partial_len: usize,
    /// Rows the popup last drew.
    pub popup_lines: u16,
    /// Where the cursor is believed to be.
    pub last_cursor_row: u16,
    pub last_cursor_col: u16,
    /// Where the line being edited starts.
    pub line_start_row: u16,
    pub line_start_col: u16,
    /// The cursor position the popup is drawn for.
    pub popup_row: u16,
    pub popup_col: u16,
    /// The column the popup was actually drawn at.
    pub popup_col_actual: u16,
    pub current_cwd: String,
    pub osc_capture: Option<Vec<u8>>,
    /// Typed bytes not yet sent to the shell.
    pub pending: Vec<u8>,
}

/// The parts of the session a keystroke changes, as plain values.
pub struct SessionView {
    pub mode: Mode,
    pub text: Seq<char>,
    pub pos: int,
    pub popup: PopupView,
    pub partial: usize,
    pub lines: u16,
    pub row: u16,
    pub col: u16,
    pub start_row: u16,
    pub start_col: u16,
    pub popup_row: u16,
    pub popup_col: u16,
    pub col_actual: u16,
    pub pending: Seq<u8>,
}

/// The view with the cursor put where the line says it is.
pub open spec fn synced(v: SessionView, cols: u16, rows: u16) -> SessionView {
    let (r, c) = spec_cursor_position(v.pos, v.start_row, v.start_col, cols, rows);
    SessionView { row: r, col: c, ..v }
}

pub open spec fn dismissed(p: PopupView) -> PopupView {
    PopupView {
        items: Seq::<ScoredCandidate>::empty(),
        selected: 0,
        scroll_offset: 0,
        max_visible: p.max_visible,
        visible: false,
    }
}

/// The view after the popup closes.
pub open spec fn closed(v: SessionView) -> SessionView {
    SessionView { popup: dismissed(v.popup), lines: 0, partial: 0, mode: Mode::Passthrough, ..v }
}

/// The effect that blanks the popup as last drawn.
pub open spec fn clear_effect(v: SessionView) -> EffectView {
    EffectView::Clear(v.popup_row, v.col_actual, v.lines)
}

/// The view with an empty line.
pub open spec fn cleared(v: SessionView) -> SessionView {
    SessionView { text: Seq::<char>::empty(), pos: 0, ..v }
}

/// What drawing the popup reports: rows drawn, the column used, and the
/// layout drawn. With nothing to show, no rows at the cursor's column; where
/// the layout's 16-bit arithmetic would overflow, no rows at `fallback`.
pub open spec fn rendered(
    p: PopupView,
    theme: Theme,
    row: u16,
    col: u16,
    cols: u16,
    rows: u16,
    fallback: u16,
) -> (u16, u16, Option<PopupLayout>) {
    if !p.visible || p.items.len() == 0 {
        (0, col, None)
    } else if layout_fits(p, theme, row as int, col as int, cols as int, rows as int) {
        let l = spec_layout(p, theme, row as int, col as int, cols as int, rows as int)->0;
        (l.rendered_height, l.popup_col, Some(l))
    } else {
        (0, fallback, None)
    }
}

/// The view after drawing the popup at (`popup_row`, `popup_col`), and the
/// draw effect.
pub open spec fn drawn(v: SessionView, theme: Theme, cols: u16, rows: u16, fallback: u16) -> (
    SessionView,
    Seq<EffectView>,
) {
    let (lines, c, l) = rendered(v.popup, theme, v.popup_row, v.popup_col, cols, rows, fallback);
    (
        SessionView { lines, col_actual: c, ..v },
        match l {
            Some(l) => seq![EffectView::Draw(l)],
            None => Seq::<EffectView>::empty(),
        },
    )
}

/// The popup after moving the selection down.
pub open spec fn popup_next(p: PopupView) -> PopupView {
    if p.items.len() == 0 {
        p
    } else {
        let s = next_index(p.selected as int, p.items.len() as int);
        PopupView {
            selected: s as usize,
            scroll_offset: scrolled_offset(s, p.scroll_offset as int, p.max_visible as int) as usize,
            ..p
        }
    }
}

/// The popup after moving the selection up.
pub open spec fn popup_prev(p: PopupView) -> PopupView {
    if p.items.len() == 0 {
        p
    } else {
        let s = prev_index(p.selected as int, p.items.len() as int);
        PopupView {
            selected: s as usize,
            scroll_offset: scrolled_offset(s, p.scroll_offset as int, p.max_visible as int) as usize,
            ..p
        }
    }
}

/// The popup showing fresh items from the top.
pub open spec fn popup_set(p: PopupView, items: Seq<ScoredCandidate>) -> PopupView {
    PopupView { items, visible: items.len() > 0, selected: 0, scroll_offset: 0, ..p }
}

/// The popup showing fresh items, keeping the selected candidate when it is
/// still listed.
pub open spec fn popup_refilled(p: PopupView, items: Seq<ScoredCandidate>) -> PopupView {
    let kept = if p.selected < p.items.len() {
        first_named(items, p.items[p.selected as int].candidate.name@, 0)
    } else {
        None
    };
    match kept {
        Some(k) => PopupView {
            items,
            visible: items.len() > 0,
            selected: k as usize,
            scroll_offset: scrolled_offset(k, p.scroll_offset as int, p.max_visible as int) as usize,
            ..p
        },
        None => PopupView { items, visible: items.len() > 0, selected: 0, scroll_offset: 0, ..p },
    }
}

/// Whether the key edits the line without needing the popup.
pub open spec fn is_line_edit(a: InputAction) -> bool {
    match a {
        InputAction::Backspace | InputAction::Delete | InputAction::Left | InputAction::Right
        | InputAction::Home | InputAction::End | InputAction::KillWord | InputAction::KillLine => true,
        _ => false,
    }
}

/// The line and cursor after an editing key.
pub open spec fn line_edit(text: Seq<char>, pos: int, a: InputAction) -> (Seq<char>, int) {
    match a {
        InputAction::Backspace => if pos > 0 {
            (text.remove(pos - 1), pos - 1)
        } else {
            (text, pos)
        },
        InputAction::Delete => if pos < text.len() {
            (text.remove(pos), pos)
        } else {
            (text, pos)
        },
        InputAction::Left => (
            text,
            if pos > 0 {
                pos - 1
            } else {
                pos
            },
        ),
        InputAction::Right => (
            text,
            if pos < text.len() {
                pos + 1
            } else {
                pos
            },
        ),
        InputAction::Home => (text, 0),
        InputAction::End => (text, text.len() as int),
        InputAction::KillLine => (text.subrange(pos, text.len() as int), 0),
        InputAction::KillWord => (
            splice(text, kill_word_start(text, pos), pos, Seq::<char>::empty()),
            kill_word_start(text, pos),
        ),
        _ => (text, pos),
    }
}

/// The view after an editing key, with the cursor following the line.
pub open spec fn edited(v: SessionView, a: InputAction, cols: u16, rows: u16) -> SessionView {
    let (t, p) = line_edit(v.text, v.pos, a);
    synced(SessionView { text: t, pos: p, ..v }, cols, rows)
}

/// The bytes an editing key sends: DEL for backspace, else the key's own bytes.
pub open spec fn edit_bytes(a: InputAction, bytes: Seq<u8>) -> Seq<u8> {
    if a == InputAction::Backspace {
        seq![0x7fu8]
    } else {
        bytes
    }
}

/// The view after typed bytes: kept for the shell, and, unless they start an
/// escape sequence, inserted into the line (when they are UTF-8) with the
/// line's start taken from the cursor when the line was empty.
pub open spec fn typed(v: SessionView, bytes: Seq<u8>, cols: u16, rows: u16) -> SessionView {
    let v1 = SessionView { pending: v.pending + bytes, ..v };
    if bytes.len() > 0 && bytes[0] == 0x1b {
        v1
    } else {
        let empty = v.text.len() == 0 && v.pos == 0;
        let sr = if empty {
            v.row
        } else {
            v.start_row
        };
        let sc = if empty {
            v.col
        } else {
            v.start_col
        };
        let ok = valid_utf8(bytes) && utf8_len_of(v.text) + bytes.len() <= usize::MAX;
        let d = decode_utf8(bytes);
        let t = if ok {
            splice(v.text, v.pos, v.pos, d)
        } else {
            v.text
        };
        let p = if ok {
            v.pos + d.len()
        } else {
            v.pos
        };
        synced(SessionView { start_row: sr, start_col: sc, text: t, pos: p, ..v1 }, cols, rows)
    }
}

pub open spec fn all_ws(s: Seq<char>) -> bool {
    forall|i: int| 0 <= i < s.len() ==> is_unicode_whitespace(#[trigger] s[i])
}

/// The text a selected candidate inserts, before its insert-value markup is
/// read: its insert value verbatim, else its name escaped for the quoting at
/// the cursor.
pub open spec fn accepted_text(v: SessionView, is_fish: bool) -> Seq<char> {
    let c = v.popup.items[v.popup.selected as int].candidate;
    if c.insert_value is Some {
        c.spec_insert_text()
    } else {
        escaped(spec_quote_mode(v.text.subrange(0, v.pos)), is_fish, c.spec_insert_text())
    }
}

/// Accepting the selected candidate: the raw span around the cursor (the
/// token, or the inside of the open quotes) is replaced by the candidate's
/// text, as its `{cursor}` marks and backspaces say, with a space after it
/// when the span reaches the end of the line outside quotes, the candidate is
/// no folder, its cursor ends after it and it does not submit the line. The
/// popup closes, and the shell receives the keystrokes of the same edit.
pub open spec fn accepted(v: SessionView, is_fish: bool, cols: u16, rows: u16) -> (
    SessionView,
    Seq<EffectView>,
) {
    let c = v.popup.items[v.popup.selected as int].candidate;
    let (start, end, mode) = spec_edit_context(v.text, v.pos);
    let raw = accepted_text(v, is_fish);
    let t = insert_text_of(raw);
    let mark = insert_cursor_of(raw);
    if utf8_len_of(v.text) + utf8_len_of(t) + 1 > usize::MAX {
        (v, Seq::<EffectView>::empty())
    } else {
        let append = c.kind != CandidateKind::Folder && end == v.text.len() && mode == QuoteMode::Plain
            && mark == t.len() && !t.contains('\n');
        let from = span_start(start, insert_erase_of(raw) as int);
        let ins = if append {
            t.push(' ')
        } else {
            t
        };
        let k = span_cursor(mark, t.len() as int, ins.len() as int);
        let v1 = synced(
            SessionView { text: splice(v.text, from, end, ins), pos: from + k, ..v },
            cols,
            rows,
        );
        (
            closed(v1),
            seq![
                clear_effect(v1),
                EffectView::Pty(
                    edit_keys((v.pos - from) as nat, (end - v.pos) as nat, ins, (ins.len() - k) as nat),
                ),
            ],
        )
    }
}

/// What a keystroke does: the next view, the effects, and the completion
/// work it asks for.
pub open spec fn key_step(
    v: SessionView,
    theme: Theme,
    is_fish: bool,
    a: InputAction,
    bytes: Seq<u8>,
    cols: u16,
    rows: u16,
) -> (SessionView, Seq<EffectView>, Need) {
    let none = Seq::<EffectView>::empty();
    match v.mode {
        Mode::Passthrough => match a {
            InputAction::Tab => if all_ws(v.text.subrange(0, v.pos)) {
                (v, seq![EffectView::Pty(seq![0x09u8])], Need::Nothing)
            } else {
                (v, none, Need::Open)
            },
            InputAction::Passthrough => (typed(v, bytes, cols, rows), none, Need::Nothing),
            InputAction::Enter => (
                SessionView { partial: 0, ..cleared(v) },
                seq![EffectView::Pty(seq![0x0du8])],
                Need::Nothing,
            ),
            InputAction::CtrlC => (
                SessionView { partial: 0, ..cleared(v) },
                seq![EffectView::Pty(seq![0x03u8])],
                Need::Nothing,
            ),
            InputAction::CtrlZ => (
                SessionView { partial: 0, ..cleared(v) },
                seq![EffectView::Pty(seq![0x1au8])],
                Need::Nothing,
            ),
            InputAction::CtrlJ => (v, seq![EffectView::Pty(seq![0x0au8])], Need::Nothing),
            InputAction::CtrlK => (v, seq![EffectView::Pty(seq![0x0bu8])], Need::Nothing),
            InputAction::Up | InputAction::Down => (
                SessionView { partial: 0, ..cleared(v) },
                seq![EffectView::Pty(bytes)],
                Need::Nothing,
            ),
            _ => if is_line_edit(a) {
                (edited(v, a, cols, rows), seq![EffectView::Pty(edit_bytes(a, bytes))], Need::Nothing)
            } else {
                (v, seq![EffectView::Pty(bytes)], Need::Nothing)
            },
        },
        Mode::PopupActive => match a {
            InputAction::Down | InputAction::Tab | InputAction::CtrlJ => {
                let (v1, fx) = drawn(
                    SessionView { popup: popup_next(v.popup), ..v },
                    theme,
                    cols,
                    rows,
                    v.col_actual,
                );
                (v1, fx, Need::Nothing)
            },
            InputAction::Up | InputAction::ShiftTab | InputAction::CtrlK => {
                let (v1, fx) = drawn(
                    SessionView { popup: popup_prev(v.popup), ..v },
                    theme,
                    cols,
                    rows,
                    v.col_actual,
                );
                (v1, fx, Need::Nothing)
            },
            InputAction::Enter => if v.popup.selected < v.popup.items.len() {
                let (v1, fx) = accepted(v, is_fish, cols, rows);
                (v1, fx, Need::Nothing)
            } else {
                (v, none, Need::Nothing)
            },
            InputAction::Escape => (closed(v), seq![clear_effect(v)], Need::Nothing),
            InputAction::CtrlC => (
                cleared(closed(v)),
                seq![clear_effect(v), EffectView::Pty(seq![0x03u8])],
                Need::Nothing,
            ),
            InputAction::Passthrough => (typed(v, bytes, cols, rows), none, Need::Nothing),
            _ => if is_line_edit(a) {
                let v1 = edited(v, a, cols, rows);
                (
                    SessionView { popup_row: v1.row, popup_col: v1.col, ..v1 },
                    seq![EffectView::Pty(edit_bytes(a, bytes))],
                    Need::Refresh,
                )
            } else {
                (closed(v), seq![clear_effect(v), EffectView::Pty(bytes)], Need::Nothing)
            },
        },
    }
}

/// Handing over a completion for the Tab key: the popup opens on a non-empty
/// list, else the Tab goes to the shell.
pub open spec fn open_step(
    v: SessionView,
    theme: Theme,
    items: Seq<ScoredCandidate>,
    partial_len: usize,
    cols: u16,
    rows: u16,
) -> (SessionView, Seq<EffectView>) {
    if items.len() > 0 {
        let v1 = SessionView {
            partial: partial_len,
            popup: popup_set(v.popup, items),
            mode: Mode::PopupActive,
            popup_row: v.row,
            popup_col: v.col,
            ..v
        };
        drawn(v1, theme, cols, rows, v.col)
    } else {
        (SessionView { partial: 0, ..v }, seq![EffectView::Pty(seq![0x09u8])])
    }
}

/// Handing over a completion while the popup shows: it is redrawn with the new
/// list, or closes when the list is empty.
pub open spec fn refresh_step(
    v: SessionView,
    theme: Theme,
    items: Seq<ScoredCandidate>,
    partial_len: usize,
    cols: u16,
    rows: u16,
) -> (SessionView, Seq<EffectView>) {
    if items.len() > 0 {
        let v1 = SessionView { partial: partial_len, popup: popup_refilled(v.popup, items), ..v };
        let (v2, fx) = drawn(v1, theme, cols, rows, v.col_actual);
        (v2, seq![clear_effect(v)] + fx)
    } else {
        (closed(v), seq![clear_effect(v)])
    }
}

/// Sending what was typed: the bytes go to the shell, and a showing popup is
/// to be refreshed at the cursor.
pub open spec fn flush_step(v: SessionView) -> (SessionView, Seq<EffectView>, bool) {
    if v.pending.len() == 0 {
        (v, Seq::<EffectView>::empty(), false)
    } else {
        let v1 = SessionView { pending: Seq::<u8>::empty(), ..v };
        if v.mode == Mode::PopupActive {
            (
                SessionView { popup_row: v.row, popup_col: v.col, ..v1 },
                seq![EffectView::Pty(v.pending)],
                true,
            )
        } else {
            (v1, seq![EffectView::Pty(v.pending)], false)
        }
    }
}

impl ProxySession {
    pub open spec fn sv(&self) -> SessionView {
        SessionView {
            mode: self.mode,
            text: self.line_state.text(),
            pos: self.line_state.pos(),
            popup: self.popup@,
            partial: self.popup_partial_len,
            lines: self.popup_lines,
            row: self.last_cursor_row,
            col: self.last_cursor_col,
            start_row: self.line_start_row,
            start_col: self.line_start_col,
            popup_row: self.popup_row,
            popup_col: self.popup_col,
            col_actual: self.popup_col_actual,
            pending: self.pending@,
        }
    }

    /// The popup's offsets stay clear of `usize::MAX`.
    pub open spec fn wf(&self) -> bool {
        &&& self.popup.scroll_offset + self.popup.max_visible <= usize::MAX
        &&& self.popup.selected < usize::MAX
    }

    /// The parts no keystroke changes.
    pub open spec fn same_setup(&self, other: ProxySession) -> bool {
        &&& self.renderer.theme == other.renderer.theme
        &&& self.shell_type == other.shell_type
        &&& self.current_cwd@ == other.current_cwd@
        &&& opt_bytes_eq(self.osc_capture, other.osc_capture)
    }
}

pub open spec fn opt_bytes_eq(a: Option<Vec<u8>>, b: Option<Vec<u8>>) -> bool {
    match (a, b) {
        (Some(x), Some(y)) => x@ == y@,
        (None, None) => true,
        _ => false,
    }
}

proof fn lemma_first_named_bounds(items: Seq<ScoredCandidate>, name: Seq<char>, i: int)
    requires
        0 <= i,
    ensures
        first_named(items, name, i) matches Some(k) ==> i <= k < items.len(),
    decreases items.len() - i,
{
    if i < items.len() && items[i].candidate.name@ != name {
        lemma_first_named_bounds(items, name, i + 1);
    }
}

proof fn lemma_push_effect(v: Seq<Effect>, e: Effect)
    ensures
        effects_view(v.push(e)) == effects_view(v).push(effect_view(e)),
{
    assert(effects_view(v.push(e)) =~= effects_view(v).push(effect_view(e)));
}

fn all_whitespace_str(s: &str) -> (r: bool)
    ensures
        r == all_ws(s@),
{
    let chars = crate::text::chars_of(s);
    let mut i: usize = 0;
    while i < chars.len()
        invariant
            chars@ == s@,
            i <= chars@.len(),
            forall|j: int| 0 <= j < i ==> is_unicode_whitespace(#[trigger] s@[j]),
        decreases chars@.len() - i,
    {
        if !char_is_whitespace(chars[i]) {
            return false;
        }
        i = i + 1;
    }
    true
}

fn append_bytes(dst: &mut Vec<u8>, src: &[u8])
    ensures
        final(dst)@ == old(dst)@ + src@,
{
    let mut i: usize = 0;
    while i < src.len()
        invariant
            i <= src@.len(),
            dst@ == old(dst)@ + src@.subrange(0, i as int),
        decreases src@.len() - i,
    {
        dst.push(src[i]);
        i = i + 1;
        assert(dst@ =~= old(dst)@ + src@.subrange(0, i as int));
    }
    assert(src@.subrange(0, src@.len() as int) =~= src@);
}

/// UTF-8 length of a string, counted without overflow.
fn utf8_len_wide(s: &str) -> (n: u128)
    ensures
        n == utf8_len_of(s@),
        n <= 4 * (usize::MAX as int),
{
    let chars = crate::text::chars_of(s);
    let mut n: u128 = 0;
    let mut i: usize = 0;
    while i < chars.len()
        invariant
            chars@ == s@,
            i <= chars@.len(),
            n == utf8_len_of(s@.subrange(0, i as int)),
            n <= 4 * i,
        decreases chars@.len() - i,
    {
        proof {
            crate::text::lemma_utf8_len_of_push(s@.subrange(0, i as int), s@[i as int]);
            assert(s@.subrange(0, i as int).push(s@[i as int]) =~= s@.subrange(0, i as int + 1));
        }
        n = n + crate::text::char_utf8_len(chars[i]) as u128;
        i = i + 1;
    }
    assert(s@.subrange(0, i as int) =~= s@);
    n
}

fn one_byte(b: u8) -> (r: Vec<u8>)
    ensures
        r@ == seq![b],
{
    let mut v: Vec<u8> = Vec::new();
    v.push(b);
    assert(v@ =~= seq![b]);
    v
}

fn copy_bytes(b: &[u8]) -> (r: Vec<u8>)
    ensures
        r@ == b@,
{
    let mut v: Vec<u8> = Vec::new();
    let mut i: usize = 0;
    while i < b.len()
        invariant
            i <= b@.len(),
            v@ == b@.subrange(0, i as int),
        decreases b@.len() - i,
    {
        v.push(b[i]);
        i = i + 1;
        assert(v@ =~= b@.subrange(0, i as int));
    }
    assert(b@.subrange(0, b@.len() as int) =~= b@);
    v
}

impl ProxySession {
    /// A session in passthrough mode with an empty line that starts, with the
    /// cursor, at (`init_row`, `init_col`).
    pub fn new(
        shell_type: ShellType,
        theme: Theme,
        max_visible: usize,
        current_cwd: String,
        init_row: u16,
        init_col: u16,
    ) -> (r: Self)
        ensures
            r.wf(),
            r.mode == Mode::Passthrough,
            r.line_state.text() == Seq::<char>::empty(),
            r.line_state.pos() == 0,
            r.popup@ == dismissed(r.popup@),
            r.popup.max_visible == max_visible,
            r.renderer.theme == theme,
            r.shell_type == shell_type,
            r.current_cwd@ == current_cwd@,
            r.osc_capture is None,
            r.pending@.len() == 0,
            r.popup_partial_len == 0,
            r.popup_lines == 0,
            r.last_cursor_row == init_row && r.last_cursor_col == init_col,
            r.line_start_row == init_row && r.line_start_col == init_col,
            r.popup_row == 0 && r.popup_col == 0 && r.popup_col_actual == 0,
    {
        let popup = PopupState::new(max_visible);
        assert(popup.items@ =~= Seq::<ScoredCandidate>::empty());
        ProxySession {
            mode: Mode::Passthrough,
            line_state: LineState::new(),
            popup,
            renderer: PopupRenderer::new(theme),
            shell_type,
            popup_partial_len: 0,
            popup_lines: 0,
            last_cursor_row: init_row,
            last_cursor_col: init_col,
            line_start_row: init_row,
            line_start_col: init_col,
            popup_row: 0,
            popup_col: 0,
            popup_col_actual: 0,
            current_cwd,
            osc_capture: None,
            pending: Vec::new(),
        }
    }

    /// The text the completion engine is asked about.
    pub fn completion_input(&self) -> (s: String)
        ensures
            s@ == self.line_state.text().subrange(0, self.line_state.pos()),
    {
        self.line_state.before_cursor()
    }

    fn sync_cursor(&mut self, cols: u16, rows: u16)
        ensures
            final(self).sv() == synced(old(self).sv(), cols, rows),
            final(self).same_setup(*old(self)),
            final(self).wf() == old(self).wf(),
    {
        let (r, c) = cursor_position_from_line(
            &self.line_state,
            self.line_start_row,
            self.line_start_col,
            cols,
            rows,
        );
        self.last_cursor_row = r;
        self.last_cursor_col = c;
    }

    fn close_popup(&mut self, effects: &mut Vec<Effect>)
        ensures
            final(self).sv() == closed(old(self).sv()),
            effects_view(final(effects)@) == effects_view(old(effects)@).push(clear_effect(old(self).sv())),
            final(self).same_setup(*old(self)),
            final(self).wf(),
    {
        let e = Effect::Clear { row: self.popup_row, col: self.popup_col_actual, lines: self.popup_lines };
        proof {
            lemma_push_effect(effects@, e);
        }
        effects.push(e);
        self.popup.dismiss();
        assert(self.popup.items@ =~= Seq::<ScoredCandidate>::empty());
        self.popup_lines = 0;
        self.popup_partial_len = 0;
        self.mode = Mode::Passthrough;
    }

    fn draw(&mut self, fallback: u16, cols: u16, rows: u16, effects: &mut Vec<Effect>)
        ensures
            ({
                let (v1, fx) = drawn(old(self).sv(), old(self).renderer.theme, cols, rows, fallback);
                &&& final(self).sv() == v1
                &&& effects_view(final(effects)@) == effects_view(old(effects)@) + fx
            }),
            final(self).same_setup(*old(self)),
            final(self).wf() == old(self).wf(),
    {
        let ghost before = effects@;
        match self.renderer.try_layout(&self.popup, self.popup_row, self.popup_col, cols, rows) {
            Some(Some(l)) => {
                self.popup_lines = l.rendered_height;
                self.popup_col_actual = l.popup_col;
                let e = Effect::Draw(l);
                proof {
                    lemma_push_effect(effects@, e);
                }
                effects.push(e);
                assert(effects_view(effects@) =~= effects_view(before) + seq![EffectView::Draw(l)]);
            },
            Some(None) => {
                self.popup_lines = 0;
                self.popup_col_actual = self.popup_col;
                assert(effects_view(before) + Seq::<EffectView>::empty() =~= effects_view(before));
            },
            None => {
                self.popup_lines = 0;
                self.popup_col_actual = fallback;
                assert(effects_view(before) + Seq::<EffectView>::empty() =~= effects_view(before));
            },
        }
    }

    fn apply_edit(&mut self, action: InputAction, cols: u16, rows: u16)
        requires
            is_line_edit(action),
        ensures
            final(self).sv() == edited(old(self).sv(), action, cols, rows),
            final(self).same_setup(*old(self)),
            final(self).wf() == old(self).wf(),
    {
        match action {
            InputAction::Backspace => {
                let _ = self.line_state.backspace();
            },
            InputAction::Delete => {
                let _ = self.line_state.delete();
            },
            InputAction::Left => {
                let _ = self.line_state.move_left();
            },
            InputAction::Right => {
                let _ = self.line_state.move_right();
            },
            InputAction::Home => {
                let _ = self.line_state.move_home();
            },
            InputAction::End => {
                let _ = self.line_state.move_end();
            },
            InputAction::KillWord => {
                let _ = self.line_state.kill_last_word();
            },
            _ => {
                let _ = self.line_state.kill_line();
            },
        }
        self.sync_cursor(cols, rows);
    }

    fn type_bytes(&mut self, bytes: &[u8], cols: u16, rows: u16)
        ensures
            final(self).sv() == typed(old(self).sv(), bytes@, cols, rows),
            final(self).same_setup(*old(self)),
            final(self).wf() == old(self).wf(),
    {
        append_bytes(&mut self.pending, bytes);
        if bytes.len() > 0 && bytes[0] == 0x1b {
            return ;
        }
        let before = self.line_state.before_cursor();
        if self.line_state.len_bytes() == 0 {
            proof {
                crate::text::lemma_utf8_len_of_ge_len(self.line_state.text());
            }
            self.line_start_row = self.last_cursor_row;
            self.line_start_col = self.last_cursor_col;
        } else {
            proof {
                if self.line_state.text().len() == 0 {
                    assert(self.line_state.text() =~= Seq::<char>::empty());
                }
            }
        }
        let tb = self.line_state.len_bytes();
        if tb as u128 + bytes.len() as u128 <= usize::MAX as u128 {
            self.line_state.insert_bytes(bytes);
        }
        self.sync_cursor(cols, rows);
    }

    fn accept_selected(&mut self, cols: u16, rows: u16, effects: &mut Vec<Effect>)
        requires
            old(self).popup.selected < old(self).popup.items@.len(),
        ensures
            ({
                let (v1, fx) = accepted(old(self).sv(), old(self).shell_type is Fish, cols, rows);
                &&& final(self).sv() == v1
                &&& effects_view(final(effects)@) == effects_view(old(effects)@) + fx
            }),
            final(self).same_setup(*old(self)),
            old(self).wf() ==> final(self).wf(),
    {
        let ghost v0 = self.sv();
        let ghost e0 = effects@;
        let cand = self.popup.items[self.popup.selected].candidate.clone();
        let buffer = self.line_state.buffer();
        let before = self.line_state.before_cursor();
        let pos = before.unicode_len();
        proof {
            lemma_edit_context_bounds(v0.text, v0.pos);
        }
        let ctx = completion_edit_context(buffer.as_str(), pos);
        let raw: String = if cand.insert_value.is_some() {
            cand.insert_text().to_owned()
        } else {
            escape_fallback_completion(&self.shell_type, ctx.quote_mode, cand.insert_text())
        };
        assert(raw@ == accepted_text(v0, self.shell_type is Fish));
        let completion = CompletionText::from_insert_value(raw.as_str());
        let tb = self.line_state.len_bytes();
        let rb = utf8_len_wide(completion.text.as_str());
        if tb as u128 + rb + 1 > usize::MAX as u128 {
            assert(effects_view(e0) + Seq::<EffectView>::empty() =~= effects_view(e0));
            return ;
        }
        let is_folder = cand.kind == CandidateKind::Folder;
        let append = self.line_state.should_append_space_for_span(
            is_folder,
            ctx.replacement_end,
            ctx.quote_mode,
        ) && completion.cursor_at_end() && !completion.submits_line;
        let edit = self.line_state.apply_completion_span(
            &completion,
            ctx.replacement_start,
            ctx.replacement_end,
            append,
        );
        self.sync_cursor(cols, rows);
        let ghost v1 = self.sv();
        self.close_popup(effects);
        let keys = apply_completion_edit(&edit);
        let e = Effect::Pty(keys);
        proof {
            lemma_push_effect(effects@, e);
        }
        effects.push(e);
        assert(effects_view(effects@) =~= effects_view(e0) + seq![
            clear_effect(v1),
            EffectView::Pty(keys@),
        ]);
    }
}

impl ProxySession {
    /// Handles one classified keystroke (`bytes` are its raw bytes).
    pub fn key(&mut self, action: InputAction, bytes: &[u8], term_cols: u16, term_rows: u16) -> (r: (
        Vec<Effect>,
        Need,
    ))
        requires
            old(self).wf(),
        ensures
            final(self).wf(),
            final(self).same_setup(*old(self)),
            ({
                let (v, fx, need) = key_step(
                    old(self).sv(),
                    old(self).renderer.theme,
                    old(self).shell_type is Fish,
                    action,
                    bytes@,
                    term_cols,
                    term_rows,
                );
                &&& final(self).sv() == v
                &&& effects_view(r.0@) == fx
                &&& r.1 == need
            }),
    {
        let mut effects: Vec<Effect> = Vec::new();
        assert(effects_view(effects@) =~= Seq::<EffectView>::empty());
        match self.mode {
            Mode::Passthrough => match action {
                InputAction::Tab => {
                    let before = self.line_state.before_cursor();
                    if all_whitespace_str(before.as_str()) {
                        effects.push(Effect::Pty(one_byte(0x09)));
                        assert(effects_view(effects@) =~= seq![EffectView::Pty(seq![0x09u8])]);
                        (effects, Need::Nothing)
                    } else {
                        (effects, Need::Open)
                    }
                },
                InputAction::Passthrough => {
                    self.type_bytes(bytes, term_cols, term_rows);
                    (effects, Need::Nothing)
                },
                InputAction::Enter | InputAction::CtrlC | InputAction::CtrlZ => {
                    self.line_state.clear();
                    self.popup_partial_len = 0;
                    let code: u8 = match action {
                        InputAction::Enter => 0x0d,
                        InputAction::CtrlC => 0x03,
                        _ => 0x1a,
                    };
                    effects.push(Effect::Pty(one_byte(code)));
                    assert(effects_view(effects@) =~= seq![EffectView::Pty(seq![code])]);
                    (effects, Need::Nothing)
                },
                InputAction::CtrlJ | InputAction::CtrlK => {
                    let code: u8 = if action == InputAction::CtrlJ {
                        0x0a
                    } else {
                        0x0b
                    };
                    effects.push(Effect::Pty(one_byte(code)));
                    assert(effects_view(effects@) =~= seq![EffectView::Pty(seq![code])]);
                    (effects, Need::Nothing)
                },
                InputAction::Up | InputAction::Down => {
                    self.line_state.clear();
                    self.popup_partial_len = 0;
                    effects.push(Effect::Pty(copy_bytes(bytes)));
                    assert(effects_view(effects@) =~= seq![EffectView::Pty(bytes@)]);
                    (effects, Need::Nothing)
                },
                InputAction::Backspace | InputAction::Delete | InputAction::Left
                | InputAction::Right | InputAction::Home | InputAction::End
                | InputAction::KillWord | InputAction::KillLine => {
                    self.apply_edit(action, term_cols, term_rows);
                    let out = if action == InputAction::Backspace {
                        one_byte(0x7f)
                    } else {
                        copy_bytes(bytes)
                    };
                    effects.push(Effect::Pty(out));
                    assert(effects_view(effects@) =~= seq![EffectView::Pty(edit_bytes(action, bytes@))]);
                    (effects, Need::Nothing)
                },
                _ => {
                    effects.push(Effect::Pty(copy_bytes(bytes)));
                    assert(effects_view(effects@) =~= seq![EffectView::Pty(bytes@)]);
                    (effects, Need::Nothing)
                },
            },
            Mode::PopupActive => match action {
                InputAction::Down | InputAction::Tab | InputAction::CtrlJ => {
                    let fallback = self.popup_col_actual;
                    let _ = self.popup.items.len();
                    self.popup.select_next();
                    self.draw(fallback, term_cols, term_rows, &mut effects);
                    (effects, Need::Nothing)
                },
                InputAction::Up | InputAction::ShiftTab | InputAction::CtrlK => {
                    let fallback = self.popup_col_actual;
                    let _ = self.popup.items.len();
                    self.popup.select_prev();
                    self.draw(fallback, term_cols, term_rows, &mut effects);
                    (effects, Need::Nothing)
                },
                InputAction::Enter => {
                    if self.popup.selected < self.popup.items.len() {
                        self.accept_selected(term_cols, term_rows, &mut effects);
                    }
                    (effects, Need::Nothing)
                },
                InputAction::Escape => {
                    self.close_popup(&mut effects);
                    (effects, Need::Nothing)
                },
                InputAction::CtrlC => {
                    self.close_popup(&mut effects);
                    self.line_state.clear();
                    let e = Effect::Pty(one_byte(0x03));
                    proof {
                        lemma_push_effect(effects@, e);
                    }
                    effects.push(e);
                    (effects, Need::Nothing)
                },
                InputAction::Passthrough => {
                    self.type_bytes(bytes, term_cols, term_rows);
                    (effects, Need::Nothing)
                },
                InputAction::Backspace | InputAction::Delete | InputAction::Left
                | InputAction::Right | InputAction::Home | InputAction::End
                | InputAction::KillWord | InputAction::KillLine => {
                    self.apply_edit(action, term_cols, term_rows);
                    let out = if action == InputAction::Backspace {
                        one_byte(0x7f)
                    } else {
                        copy_bytes(bytes)
                    };
                    effects.push(Effect::Pty(out));
                    assert(effects_view(effects@) =~= seq![EffectView::Pty(edit_bytes(action, bytes@))]);
                    self.popup_row = self.last_cursor_row;
                    self.popup_col = self.last_cursor_col;
                    (effects, Need::Refresh)
                },
                _ => {
                    self.close_popup(&mut effects);
                    let e = Effect::Pty(copy_bytes(bytes));
                    proof {
                        lemma_push_effect(effects@, e);
                    }
                    effects.push(e);
                    (effects, Need::Nothing)
                },
            },
        }
    }

    /// Hands over the completion a Tab asked for (`Need::Open`): the ranked
    /// items and the length, in characters, of the word they complete.
    pub fn open_with(
        &mut self,
        items: Vec<ScoredCandidate>,
        partial_len: usize,
        term_cols: u16,
        term_rows: u16,
    ) -> (effects: Vec<Effect>)
        requires
            old(self).wf(),
        ensures
            final(self).wf(),
            final(self).same_setup(*old(self)),
            ({
                let (v, fx) = open_step(
                    old(self).sv(),
                    old(self).renderer.theme,
                    items@,
                    partial_len,
                    term_cols,
                    term_rows,
                );
                final(self).sv() == v && effects_view(effects@) == fx
            }),
    {
        let mut effects: Vec<Effect> = Vec::new();
        assert(effects_view(effects@) =~= Seq::<EffectView>::empty());
        if items.len() > 0 {
            self.popup_partial_len = partial_len;
            self.popup.set_items(items);
            self.mode = Mode::PopupActive;
            self.popup_row = self.last_cursor_row;
            self.popup_col = self.last_cursor_col;
            let fallback = self.popup_col;
            self.draw(fallback, term_cols, term_rows, &mut effects);
            assert(Seq::<EffectView>::empty() + effects_view(effects@) =~= effects_view(effects@));
        } else {
            self.popup_partial_len = 0;
            effects.push(Effect::Pty(one_byte(0x09)));
            assert(effects_view(effects@) =~= seq![EffectView::Pty(seq![0x09u8])]);
        }
        effects
    }

    /// Hands over the completion a refresh asked for (`Need::Refresh`, or a
    /// flush while the popup shows).
    pub fn refresh_with(
        &mut self,
        items: Vec<ScoredCandidate>,
        partial_len: usize,
        term_cols: u16,
        term_rows: u16,
    ) -> (effects: Vec<Effect>)
        requires
            old(self).wf(),
        ensures
            final(self).wf(),
            final(self).same_setup(*old(self)),
            ({
                let (v, fx) = refresh_step(
                    old(self).sv(),
                    old(self).renderer.theme,
                    items@,
                    partial_len,
                    term_cols,
                    term_rows,
                );
                final(self).sv() == v && effects_view(effects@) == fx
            }),
    {
        let mut effects: Vec<Effect> = Vec::new();
        assert(effects_view(effects@) =~= Seq::<EffectView>::empty());
        if items.len() > 0 {
            let ghost v0 = self.sv();
            self.popup_partial_len = partial_len;
            let e = Effect::Clear { row: self.popup_row, col: self.popup_col_actual, lines: self.popup_lines };
            effects.push(e);
            assert(effects_view(effects@) =~= seq![clear_effect(v0)]);
            let fallback = self.popup_col_actual;
            let ghost old_popup = self.popup@;
            proof {
                if old_popup.selected < old_popup.items.len() {
                    lemma_first_named_bounds(
                        items@,
                        old_popup.items[old_popup.selected as int].candidate.name@,
                        0,
                    );
                }
            }
            self.popup.set_items_preserve_selection(items);
            let _ = self.popup.items.len();
            proof {
                if old_popup.selected < old_popup.items.len() {
                    lemma_first_named_bounds(
                        self.popup.items@,
                        old_popup.items[old_popup.selected as int].candidate.name@,
                        0,
                    );
                }
            }
            self.draw(fallback, term_cols, term_rows, &mut effects);
        } else {
            self.close_popup(&mut effects);
            assert(effects_view(effects@) =~= seq![clear_effect(old(self).sv())]);
        }
        effects
    }

    /// Sends what was typed to the shell; `true` when the popup is showing and
    /// is to be refreshed (it is then placed at the cursor).
    pub fn flush(&mut self) -> (r: (Vec<Effect>, bool))
        requires
            old(self).wf(),
        ensures
            final(self).wf(),
            final(self).same_setup(*old(self)),
            ({
                let (v, fx, refresh) = flush_step(old(self).sv());
                final(self).sv() == v && effects_view(r.0@) == fx && r.1 == refresh
            }),
    {
        let mut effects: Vec<Effect> = Vec::new();
        if self.pending.len() == 0 {
            assert(effects_view(effects@) =~= Seq::<EffectView>::empty());
            return (effects, false);
        }
        let mut pending: Vec<u8> = Vec::new();
        std::mem::swap(&mut pending, &mut self.pending);
        let ghost p = pending@;
        effects.push(Effect::Pty(pending));
        assert(effects_view(effects@) =~= seq![EffectView::Pty(p)]);
        if self.mode == Mode::PopupActive {
            self.popup_row = self.last_cursor_row;
            self.popup_col = self.last_cursor_col;
            (effects, true)
        } else {
            (effects, false)
        }
    }

    /// `flush` ahead of a keystroke that is not plain typing; nothing before
    /// typing, which keeps collecting.
    pub fn flush_before(&mut self, action: InputAction) -> (r: (Vec<Effect>, bool))
        requires
            old(self).wf(),
        ensures
            final(self).wf(),
            final(self).same_setup(*old(self)),
            action == InputAction::Passthrough ==> final(self).sv() == old(self).sv() && r.0@.len()
                == 0 && !r.1,
            action != InputAction::Passthrough ==> ({
                let (v, fx, refresh) = flush_step(old(self).sv());
                final(self).sv() == v && effects_view(r.0@) == fx && r.1 == refresh
            }),
    {
        if action == InputAction::Passthrough {
            (Vec::new(), false)
        } else {
            self.flush()
        }
    }

    /// Follows the shell's output (see `try_track_pty_output`); `false` where
    /// reading a working-directory report would cut a character.
    pub fn shell_output(&mut self, data: &[u8], term_cols: u16, term_rows: u16) -> (ok: bool)
        ensures
            ({
                let before = track_view(
                    old(self).current_cwd,
                    old(self).osc_capture,
                    old(self).last_cursor_row,
                    old(self).last_cursor_col,
                );
                let after = track_view(
                    final(self).current_cwd,
                    final(self).osc_capture,
                    final(self).last_cursor_row,
                    final(self).last_cursor_col,
                );
                &&& ok == track_from(data@, 0, before, term_cols, term_rows) is Some
                &&& ok ==> Some(after) == track_from(data@, 0, before, term_cols, term_rows)
            }),
            final(self).sv() == (SessionView {
                row: final(self).last_cursor_row,
                col: final(self).last_cursor_col,
                ..old(self).sv()
            }),
            final(self).renderer.theme == old(self).renderer.theme,
            final(self).shell_type == old(self).shell_type,
            final(self).wf() == old(self).wf(),
    {
        try_track_pty_output(
            data,
            &mut self.current_cwd,
            &mut self.osc_capture,
            &mut self.last_cursor_row,
            &mut self.last_cursor_col,
            term_cols,
            term_rows,
        )
    }

    /// The shell has exited: a showing popup is closed.
    pub fn child_exited(&mut self) -> (effects: Vec<Effect>)
        ensures
            final(self).same_setup(*old(self)),
            old(self).mode == Mode::PopupActive ==> final(self).sv() == closed(old(self).sv())
                && effects_view(effects@) == seq![clear_effect(old(self).sv())],
            old(self).mode != Mode::PopupActive ==> final(self).sv() == old(self).sv()
                && effects@.len() == 0,
    {
        let mut effects: Vec<Effect> = Vec::new();
        if self.mode == Mode::PopupActive {
            self.close_popup(&mut effects);
            assert(effects_view(effects@) =~= seq![clear_effect(old(self).sv())]);
        }
        effects
    }
}

// ---------------------------------------------------------------------------
// Laws
// ---------------------------------------------------------------------------

/// Moving to the next item and then to the previous one (Tab / Down / Ctrl-J,
/// then Shift-Tab / Up / Ctrl-K) comes back to the item selected before, and
/// the popup stays open.
pub proof fn lemma_next_then_previous(
    v: SessionView,
    theme: Theme,
    is_fish: bool,
    forward: InputAction,
    backward: InputAction,
    b1: Seq<u8>,
    b2: Seq<u8>,
    cols: u16,
    rows: u16,
)
    requires
        v.mode == Mode::PopupActive,
        v.popup.selected < v.popup.items.len() <= usize::MAX,
        forward == InputAction::Down || forward == InputAction::Tab || forward == InputAction::CtrlJ,
        backward == InputAction::Up || backward == InputAction::ShiftTab || backward
            == InputAction::CtrlK,
    ensures
        ({
            let (v1, _f1, n1) = key_step(v, theme, is_fish, forward, b1, cols, rows);
            let (v2, _f2, n2) = key_step(v1, theme, is_fish, backward, b2, cols, rows);
            &&& v2.mode == Mode::PopupActive
            &&& v2.popup.selected == v.popup.selected
            &&& v2.popup.items == v.popup.items
            &&& v2.text == v.text && v2.pos == v.pos
            &&& n1 == Need::Nothing && n2 == Need::Nothing
        }),
{
    lemma_next_prev_undo(v.popup.selected as int, v.popup.items.len() as int);
    let (v1, _f1, n1) = key_step(v, theme, is_fish, forward, b1, cols, rows);
    assert(v1.popup == popup_next(v.popup));
    let (v2, _f2, n2) = key_step(v1, theme, is_fish, backward, b2, cols, rows);
    assert(v2.popup == popup_prev(v1.popup));
}

/// Esc and Ctrl-C close the popup: passthrough mode, nothing listed, the drawn
/// rows cleared; Esc sends nothing to the shell, Ctrl-C sends the interrupt
/// and empties the line.
pub proof fn lemma_dismiss_keys_close(
    v: SessionView,
    theme: Theme,
    is_fish: bool,
    a: InputAction,
    bytes: Seq<u8>,
    cols: u16,
    rows: u16,
)
    requires
        v.mode == Mode::PopupActive,
        a == InputAction::Escape || a == InputAction::CtrlC,
    ensures
        ({
            let (v1, fx, need) = key_step(v, theme, is_fish, a, bytes, cols, rows);
            &&& v1.mode == Mode::Passthrough
            &&& !v1.popup.visible && v1.popup.items.len() == 0
            &&& v1.lines == 0
            &&& fx[0] == clear_effect(v)
            &&& need == Need::Nothing
            &&& a == InputAction::Escape ==> fx.len() == 1 && v1.text == v.text
            &&& a == InputAction::CtrlC ==> fx.len() == 2 && fx[1] == EffectView::Pty(seq![0x03u8])
                && v1.text.len() == 0
        }),
{
}

/// What is typed reaches the shell unchanged and in order: typing keeps the
/// bytes, and the next flush sends everything kept.
pub proof fn lemma_typing_reaches_shell(v: SessionView, theme: Theme, is_fish: bool, bytes: Seq<u8>, cols: u16, rows: u16)
    ensures
        ({
            let (v1, fx, need) = key_step(v, theme, is_fish, InputAction::Passthrough, bytes, cols, rows);
            let (v2, fx2, _refresh) = flush_step(v1);
            &&& fx.len() == 0
            &&& need == Need::Nothing
            &&& v1.pending == v.pending + bytes
            &&& (v.pending + bytes).len() > 0 ==> fx2 == seq![EffectView::Pty(v.pending + bytes)]
            &&& v2.pending.len() == 0
            &&& v2.mode == v.mode
        }),
{
}

/// While the popup shows, a key that neither moves the selection, accepts,
/// dismisses, types nor edits the line closes the popup and goes to the
/// shell as it came.
pub proof fn lemma_other_keys_close_and_pass_through(
    v: SessionView,
    theme: Theme,
    is_fish: bool,
    a: InputAction,
    bytes: Seq<u8>,
    cols: u16,
    rows: u16,
)
    requires
        v.mode == Mode::PopupActive,
        !(a == InputAction::Down || a == InputAction::Tab || a == InputAction::CtrlJ),
        !(a == InputAction::Up || a == InputAction::ShiftTab || a == InputAction::CtrlK),
        !(a == InputAction::Enter || a == InputAction::Escape || a == InputAction::CtrlC),
        a != InputAction::Passthrough,
        !is_line_edit(a),
    ensures
        ({
            let (v1, fx, need) = key_step(v, theme, is_fish, a, bytes, cols, rows);
            &&& v1.mode == Mode::Passthrough
            &&& !v1.popup.visible && v1.popup.items.len() == 0
            &&& v1.text == v.text && v1.pos == v.pos
            &&& fx == seq![clear_effect(v), EffectView::Pty(bytes)]
            &&& need == Need::Nothing
        }),
{
}

/// Tab with completions opens the popup on the first item; with none, the Tab
/// goes to the shell and the popup stays closed.
pub proof fn lemma_tab_opens_popup(
    v: SessionView,
    theme: Theme,
    items: Seq<ScoredCandidate>,
    partial_len: usize,
    cols: u16,
    rows: u16,
)
    requires
        v.mode == Mode::Passthrough,
    ensures
        ({
            let (v1, fx) = open_step(v, theme, items, partial_len, cols, rows);
            &&& items.len() > 0 ==> v1.mode == Mode::PopupActive && v1.popup.selected == 0
                && v1.popup.items == items && v1.partial == partial_len
            &&& items.len() == 0 ==> v1.mode == Mode::Passthrough && fx == seq![
                EffectView::Pty(seq![0x09u8]),
            ]
        }),
{
}

/// The line a shell's editor holds after `n` forward deletes at `pos`.
pub open spec fn forward_deleted(text: Seq<char>, pos: int, n: nat) -> Seq<char>
    decreases n,
{
    if n == 0 || pos >= text.len() {
        text
    } else {
        forward_deleted(text.remove(pos), pos, (n - 1) as nat)
    }
}

/// The line and cursor a shell's editor holds after `n` backspaces.
pub open spec fn backspaced(text: Seq<char>, pos: int, n: nat) -> (Seq<char>, int)
    decreases n,
{
    if n == 0 || pos <= 0 {
        (text, pos)
    } else {
        backspaced(text.remove(pos - 1), pos - 1, (n - 1) as nat)
    }
}

/// What a line editor makes of the keystrokes of an edit: forward deletes,
/// backspaces, the text typed at the cursor, then moves of the cursor to the left.
pub open spec fn keystrokes_applied(
    text: Seq<char>,
    pos: int,
    delete_left: nat,
    delete_right: nat,
    ins: Seq<char>,
    move_left: nat,
) -> (Seq<char>, int) {
    let t1 = forward_deleted(text, pos, delete_right);
    let (t2, p2) = backspaced(t1, pos, delete_left);
    let p3 = p2 + ins.len();
    (splice(t2, p2, p2, ins), if move_left <= p3 { p3 - move_left } else { 0 })
}

proof fn lemma_forward_deleted(text: Seq<char>, pos: int, n: nat)
    requires
        0 <= pos,
        pos + n <= text.len(),
    ensures
        forward_deleted(text, pos, n) == text.subrange(0, pos) + text.subrange(pos + n, text.len() as int),
    decreases n,
{
    if n == 0 {
        assert(text.subrange(0, pos) + text.subrange(pos, text.len() as int) =~= text);
    } else {
        let t = text.remove(pos);
        lemma_forward_deleted(t, pos, (n - 1) as nat);
        assert(t.subrange(0, pos) + t.subrange(pos + n - 1, t.len() as int) =~= text.subrange(0, pos)
            + text.subrange(pos + n, text.len() as int));
    }
}

proof fn lemma_backspaced(text: Seq<char>, pos: int, n: nat)
    requires
        n <= pos <= text.len(),
    ensures
        backspaced(text, pos, n) == (
            text.subrange(0, pos - n) + text.subrange(pos, text.len() as int),
            pos - n,
        ),
    decreases n,
{
    if n == 0 {
        assert(text.subrange(0, pos) + text.subrange(pos, text.len() as int) =~= text);
    } else {
        let t = text.remove(pos - 1);
        lemma_backspaced(t, pos - 1, (n - 1) as nat);
        assert(t.subrange(0, pos - n) + t.subrange(pos - 1, t.len() as int) =~= text.subrange(0, pos - n)
            + text.subrange(pos, text.len() as int));
    }
}

/// Accepting a candidate keeps the shell's line and the tracked line the same:
/// the keystrokes sent, applied by the shell's editor to the line as it was,
/// give the line and cursor the session now holds.
pub proof fn lemma_accept_keystrokes_match_line(v: SessionView, is_fish: bool, cols: u16, rows: u16)
    requires
        v.popup.selected < v.popup.items.len(),
        0 <= v.pos <= v.text.len(),
    ensures
        ({
            let (v1, fx) = accepted(v, is_fish, cols, rows);
            fx.len() == 2 ==> (exists|dl: nat, dr: nat, ins: Seq<char>, ml: nat|
                fx[1] == EffectView::Pty(edit_keys(dl, dr, ins, ml)) && #[trigger] keystrokes_applied(
                    v.text,
                    v.pos,
                    dl,
                    dr,
                    ins,
                    ml,
                ) == (v1.text, v1.pos))
        }),
{
    let raw = accepted_text(v, is_fish);
    let t = insert_text_of(raw);
    let mark = insert_cursor_of(raw);
    if utf8_len_of(v.text) + utf8_len_of(t) + 1 <= usize::MAX {
        let c = v.popup.items[v.popup.selected as int].candidate;
        let (start, end, mode) = spec_edit_context(v.text, v.pos);
        lemma_edit_context_bounds(v.text, v.pos);
        let append = c.kind != CandidateKind::Folder && end == v.text.len() && mode == QuoteMode::Plain
            && mark == t.len() && !t.contains('\n');
        let from = span_start(start, insert_erase_of(raw) as int);
        let ins = if append {
            t.push(' ')
        } else {
            t
        };
        let k = span_cursor(mark, t.len() as int, ins.len() as int);
        crate::input::line::lemma_insert_cursor_bound(raw);
        let dl = (v.pos - from) as nat;
        let dr = (end - v.pos) as nat;
        let ml = (ins.len() - k) as nat;
        lemma_forward_deleted(v.text, v.pos, dr);
        let t1 = forward_deleted(v.text, v.pos, dr);
        lemma_backspaced(t1, v.pos, dl);
        assert(splice(backspaced(t1, v.pos, dl).0, from, from, ins) =~= splice(v.text, from, end, ins));
        let (v1, fx) = accepted(v, is_fish, cols, rows);
        assert(keystrokes_applied(v.text, v.pos, dl, dr, ins, ml) == (v1.text, v1.pos));
    }
}

} // verus!
