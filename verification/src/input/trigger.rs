//! Key classification for the completion state machine.
use vstd::prelude::*;

verus! {

/// Actions that the input processor can produce.
#[derive(Debug, Clone, Copy, PartialEq, Eq, Structural)]
pub enum InputAction {
    /// Normal character — passthrough to PTY.
    Passthrough,
    /// Tab pressed — activate/cycle completion.
    Tab,
    /// Shift+Tab — cycle completion backwards.
    ShiftTab,
    /// Arrow down — select next item in popup.
    Down,
    /// Arrow up — select previous item in popup.
    Up,
    /// Arrow left — move cursor left.
    Left,
    /// Arrow right — move cursor right.
    Right,
    /// Home / Ctrl-A — move cursor to line start.
    Home,
    /// End / Ctrl-E — move cursor to line end.
    End,
    /// Delete the character under the cursor.
    Delete,
    /// Enter — accept selected completion (when popup open).
    Enter,
    /// Escape — dismiss popup.
    Escape,
    /// Backspace — delete char and re-trigger completion.
    Backspace,
    /// Ctrl-C — interrupt.
    CtrlC,
    /// Ctrl-Z — suspend.
    CtrlZ,
    /// Ctrl-J — move down in popup (or passthrough as LF in passthrough mode).
    CtrlJ,
    /// Ctrl-K — move up in popup (or passthrough in passthrough mode).
    CtrlK,
    /// Ctrl-W or Option+Backspace — kill last word.
    KillWord,
    /// Ctrl-U — kill entire line.
    KillLine,
}

/// Index just past the final byte (0x40..=0x7E) of a CSI sequence whose
/// parameter bytes start at `e`, or the buffer length if it never ends.
pub open spec fn csi_end(buf: Seq<u8>, e: int) -> int
    decreases buf.len() - e,
{
    if e >= buf.len() {
        buf.len() as int
    } else if 0x40 <= buf[e] && buf[e] <= 0x7e {
        e + 1
    } else {
        csi_end(buf, e + 1)
    }
}

pub open spec fn min_len(n: int, len: int) -> int {
    if n < len {
        n
    } else {
        len
    }
}

/// The action the first bytes of `buf` stand for and how many bytes it takes.
pub open spec fn spec_classify(buf: Seq<u8>) -> (InputAction, int) {
    let len = buf.len() as int;
    if len == 0 {
        (InputAction::Passthrough, 0)
    } else if buf[0] == 0x09 {
        (InputAction::Tab, 1)
    } else if buf[0] == 0x17 {
        (InputAction::KillWord, 1)
    } else if buf[0] == 0x01 {
        (InputAction::Home, 1)
    } else if buf[0] == 0x05 {
        (InputAction::End, 1)
    } else if buf[0] == 0x15 {
        (InputAction::KillLine, 1)
    } else if buf[0] == 0x1b {
        if len == 1 {
            (InputAction::Escape, 1)
        } else if buf[1] == 0x7f {
            (InputAction::KillWord, 2)
        } else if buf[1] == 0x5b {
            if len >= 3 && buf[2] == 0x41 {
                (InputAction::Up, 3)
            } else if len >= 3 && buf[2] == 0x42 {
                (InputAction::Down, 3)
            } else if len >= 3 && buf[2] == 0x43 {
                (InputAction::Right, 3)
            } else if len >= 3 && buf[2] == 0x44 {
                (InputAction::Left, 3)
            } else if len >= 3 && buf[2] == 0x48 {
                (InputAction::Home, 3)
            } else if len >= 3 && buf[2] == 0x46 {
                (InputAction::End, 3)
            } else if len >= 3 && buf[2] == 0x5a {
                (InputAction::ShiftTab, 3)
            } else if len >= 4 && buf[2] == 0x31 && buf[3] == 0x7e {
                (InputAction::Home, 4)
            } else if len >= 4 && buf[2] == 0x34 && buf[3] == 0x7e {
                (InputAction::End, 4)
            } else if len >= 4 && buf[2] == 0x33 && buf[3] == 0x7e {
                (InputAction::Delete, 4)
            } else {
                (InputAction::Passthrough, csi_end(buf, 2))
            }
        } else {
            (InputAction::Passthrough, 2)
        }
    } else if buf[0] == 0x0d {
        (InputAction::Enter, 1)
    } else if buf[0] == 0x0a {
        (InputAction::CtrlJ, 1)
    } else if buf[0] == 0x0b {
        (InputAction::CtrlK, 1)
    } else if buf[0] == 0x7f || buf[0] == 0x08 {
        (InputAction::Backspace, 1)
    } else if buf[0] == 0x03 {
        (InputAction::CtrlC, 1)
    } else if buf[0] == 0x1a {
        (InputAction::CtrlZ, 1)
    } else if buf[0] < 0x80 {
        (InputAction::Passthrough, 1)
    } else if buf[0] < 0xe0 {
        (InputAction::Passthrough, min_len(2, len))
    } else if buf[0] < 0xf0 {
        (InputAction::Passthrough, min_len(3, len))
    } else {
        (InputAction::Passthrough, min_len(4, len))
    }
}

/// Parse raw input bytes into an InputAction.
/// Returns the action and number of bytes consumed.
pub fn classify_input(buf: &[u8]) -> (r: (InputAction, usize))
    ensures
        (r.0, r.1 as int) == spec_classify(buf@),
        buf@.len() > 0 ==> 1 <= r.1 <= buf@.len(),
{
    let len = buf.len();
    if len == 0 {
        return (InputAction::Passthrough, 0);
    }
    let b0 = buf[0];
    if b0 == 0x09 {
        return (InputAction::Tab, 1);
    }
    if b0 == 0x17 {
        return (InputAction::KillWord, 1);
    }
    if b0 == 0x01 {
        return (InputAction::Home, 1);
    }
    if b0 == 0x05 {
        return (InputAction::End, 1);
    }
    if b0 == 0x15 {
        return (InputAction::KillLine, 1);
    }
    if b0 == 0x1b {
        if len == 1 {
            return (InputAction::Escape, 1);
        }
        if buf[1] == 0x7f {
            return (InputAction::KillWord, 2);
        }
        if buf[1] == 0x5b {
            if len >= 3 {
                let b2 = buf[2];
                if b2 == 0x41 {
                    return (InputAction::Up, 3);
                } else if b2 == 0x42 {
                    return (InputAction::Down, 3);
                } else if b2 == 0x43 {
                    return (InputAction::Right, 3);
                } else if b2 == 0x44 {
                    return (InputAction::Left, 3);
                } else if b2 == 0x48 {
                    return (InputAction::Home, 3);
                } else if b2 == 0x46 {
                    return (InputAction::End, 3);
                } else if b2 == 0x5a {
                    return (InputAction::ShiftTab, 3);
                } else if b2 == 0x31 && len >= 4 && buf[3] == 0x7e {
                    return (InputAction::Home, 4);
                } else if b2 == 0x34 && len >= 4 && buf[3] == 0x7e {
                    return (InputAction::End, 4);
                } else if b2 == 0x33 && len >= 4 && buf[3] == 0x7e {
                    return (InputAction::Delete, 4);
                }
            }
            // Pass through other CSI escape sequences, however long.
            let mut end: usize = 2;
            let mut done = false;
            while end < len && !done
                invariant
                    len == buf@.len(),
                    2 <= end <= len,
                    !done ==> csi_end(buf@, end as int) == csi_end(buf@, 2),
                    done ==> end as int == csi_end(buf@, 2),
                decreases len - end,
            {
                if buf[end] >= 0x40 && buf[end] <= 0x7e {
                    done = true;
                }
                end = end + 1;
            }
            return (InputAction::Passthrough, end);
        }
        // Alt+key or other escape sequences — passthrough
        return (InputAction::Passthrough, 2);
    }
    if b0 == 0x0d {
        return (InputAction::Enter, 1);
    }
    if b0 == 0x0a {
        return (InputAction::CtrlJ, 1);
    }
    if b0 == 0x0b {
        return (InputAction::CtrlK, 1);
    }
    if b0 == 0x7f || b0 == 0x08 {
        return (InputAction::Backspace, 1);
    }
    if b0 == 0x03 {
        return (InputAction::CtrlC, 1);
    }
    if b0 == 0x1a {
        return (InputAction::CtrlZ, 1);
    }
    let n: usize = if b0 < 0x80 {
        1
    } else if b0 < 0xe0 {
        if 2 < len {
            2
        } else {
            len
        }
    } else if b0 < 0xf0 {
        if 3 < len {
            3
        } else {
            len
        }
    } else {
        if 4 < len {
            4
        } else {
            len
        }
    };
    (InputAction::Passthrough, n)
}

/// Every standard encoding of a key is read as that key, whatever follows it
/// in the buffer, and takes exactly its own bytes: Home is Ctrl-A, ESC [ H or
/// ESC [ 1 ~; End is Ctrl-E, ESC [ F or ESC [ 4 ~; the arrows are ESC [ A..D;
/// Delete is ESC [ 3 ~; Shift-Tab is ESC [ Z; and the control keys are their
/// single bytes.
pub proof fn lemma_key_encodings(rest: Seq<u8>)
    ensures
        spec_classify(seq![0x01u8] + rest) == (InputAction::Home, 1int),
        spec_classify(seq![0x1bu8, 0x5bu8, 0x48u8] + rest) == (InputAction::Home, 3int),
        spec_classify(seq![0x1bu8, 0x5bu8, 0x31u8, 0x7eu8] + rest) == (InputAction::Home, 4int),
        spec_classify(seq![0x05u8] + rest) == (InputAction::End, 1int),
        spec_classify(seq![0x1bu8, 0x5bu8, 0x46u8] + rest) == (InputAction::End, 3int),
        spec_classify(seq![0x1bu8, 0x5bu8, 0x34u8, 0x7eu8] + rest) == (InputAction::End, 4int),
        spec_classify(seq![0x1bu8, 0x5bu8, 0x41u8] + rest) == (InputAction::Up, 3int),
        spec_classify(seq![0x1bu8, 0x5bu8, 0x42u8] + rest) == (InputAction::Down, 3int),
        spec_classify(seq![0x1bu8, 0x5bu8, 0x43u8] + rest) == (InputAction::Right, 3int),
        spec_classify(seq![0x1bu8, 0x5bu8, 0x44u8] + rest) == (InputAction::Left, 3int),
        spec_classify(seq![0x1bu8, 0x5bu8, 0x33u8, 0x7eu8] + rest) == (InputAction::Delete, 4int),
        spec_classify(seq![0x1bu8, 0x5bu8, 0x5au8] + rest) == (InputAction::ShiftTab, 3int),
        spec_classify(seq![0x1bu8, 0x7fu8] + rest) == (InputAction::KillWord, 2int),
        spec_classify(seq![0x09u8] + rest) == (InputAction::Tab, 1int),
        spec_classify(seq![0x0du8] + rest) == (InputAction::Enter, 1int),
        spec_classify(seq![0x0au8] + rest) == (InputAction::CtrlJ, 1int),
        spec_classify(seq![0x0bu8] + rest) == (InputAction::CtrlK, 1int),
        spec_classify(seq![0x7fu8] + rest) == (InputAction::Backspace, 1int),
        spec_classify(seq![0x08u8] + rest) == (InputAction::Backspace, 1int),
        spec_classify(seq![0x03u8] + rest) == (InputAction::CtrlC, 1int),
        spec_classify(seq![0x1au8] + rest) == (InputAction::CtrlZ, 1int),
        spec_classify(seq![0x17u8] + rest) == (InputAction::KillWord, 1int),
        spec_classify(seq![0x15u8] + rest) == (InputAction::KillLine, 1int),
        spec_classify(seq![0x1bu8]) == (InputAction::Escape, 1int),
{
    let b = seq![0x1bu8, 0x5bu8, 0x48u8] + rest;
    assert(b[0] == 0x1b && b[1] == 0x5b && b[2] == 0x48);
    let b = seq![0x1bu8, 0x5bu8, 0x46u8] + rest;
    assert(b[0] == 0x1b && b[1] == 0x5b && b[2] == 0x46);
    let b = seq![0x1bu8, 0x5bu8, 0x41u8] + rest;
    assert(b[0] == 0x1b && b[1] == 0x5b && b[2] == 0x41);
    let b = seq![0x1bu8, 0x5bu8, 0x42u8] + rest;
    assert(b[0] == 0x1b && b[1] == 0x5b && b[2] == 0x42);
    let b = seq![0x1bu8, 0x5bu8, 0x43u8] + rest;
    assert(b[0] == 0x1b && b[1] == 0x5b && b[2] == 0x43);
    let b = seq![0x1bu8, 0x5bu8, 0x44u8] + rest;
    assert(b[0] == 0x1b && b[1] == 0x5b && b[2] == 0x44);
    let b = seq![0x1bu8, 0x5bu8, 0x5au8] + rest;
    assert(b[0] == 0x1b && b[1] == 0x5b && b[2] == 0x5a);
    let b = seq![0x1bu8, 0x5bu8, 0x31u8, 0x7eu8] + rest;
    assert(b[0] == 0x1b && b[1] == 0x5b && b[2] == 0x31 && b[3] == 0x7e);
    let b = seq![0x1bu8, 0x5bu8, 0x34u8, 0x7eu8] + rest;
    assert(b[0] == 0x1b && b[1] == 0x5b && b[2] == 0x34 && b[3] == 0x7e);
    let b = seq![0x1bu8, 0x5bu8, 0x33u8, 0x7eu8] + rest;
    assert(b[0] == 0x1b && b[1] == 0x5b && b[2] == 0x33 && b[3] == 0x7e);
    let b = seq![0x1bu8, 0x7fu8] + rest;
    assert(b[0] == 0x1b && b[1] == 0x7f);
    assert((seq![0x01u8] + rest)[0] == 0x01);
    assert((seq![0x05u8] + rest)[0] == 0x05);
    assert((seq![0x09u8] + rest)[0] == 0x09);
    assert((seq![0x0du8] + rest)[0] == 0x0d);
    assert((seq![0x0au8] + rest)[0] == 0x0a);
    assert((seq![0x0bu8] + rest)[0] == 0x0b);
    assert((seq![0x7fu8] + rest)[0] == 0x7f);
    assert((seq![0x08u8] + rest)[0] == 0x08);
    assert((seq![0x03u8] + rest)[0] == 0x03);
    assert((seq![0x1au8] + rest)[0] == 0x1a);
    assert((seq![0x17u8] + rest)[0] == 0x17);
    assert((seq![0x15u8] + rest)[0] == 0x15);
}

} // verus!
