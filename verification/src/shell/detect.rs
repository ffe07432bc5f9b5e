//! Which shell is wrapped, from the path of its executable.
use crate::text::{after_last_slash, chars_end_with, chars_of, seq_ends_with, string_from_range};
use vstd::prelude::*;

verus! {

#[derive(Debug, Clone, PartialEq)]
pub enum ShellType {
    Zsh,
    Bash,
    Fish,
    Unknown(String),
}

impl ShellType {
    /// The shell's name: its own for the known shells, else the executable's name.
    pub open spec fn spec_name(&self) -> Seq<char> {
        match self {
            ShellType::Zsh => seq!['z', 's', 'h'],
            ShellType::Bash => seq!['b', 'a', 's', 'h'],
            ShellType::Fish => seq!['f', 'i', 's', 'h'],
            ShellType::Unknown(s) => s@,
        }
    }

    pub fn name(&self) -> (r: &str)
        ensures
            r@ == self.spec_name(),
    {
        match self {
            ShellType::Zsh => {
                proof {
                    reveal_strlit("zsh");
                }
                "zsh"
            },
            ShellType::Bash => {
                proof {
                    reveal_strlit("bash");
                }
                "bash"
            },
            ShellType::Fish => {
                proof {
                    reveal_strlit("fish");
                }
                "fish"
            },
            ShellType::Unknown(s) => s.as_str(),
        }
    }
}

/// The shell a path names: by its last component for zsh, bash and fish, else
/// unknown with the text after the last `/` as its name.
pub open spec fn spec_classify_shell(path: Seq<char>) -> ShellTypeView {
    if seq_ends_with(path, seq!['/', 'z', 's', 'h']) || seq_ends_with(path, seq!['/', 'z', 's', 'h', '5']) {
        ShellTypeView::Zsh
    } else if seq_ends_with(path, seq!['/', 'b', 'a', 's', 'h']) {
        ShellTypeView::Bash
    } else if seq_ends_with(path, seq!['/', 'f', 'i', 's', 'h']) {
        ShellTypeView::Fish
    } else {
        ShellTypeView::Unknown(path.subrange(after_last_slash(path, path.len() as int), path.len() as int))
    }
}

/// A shell type as a mathematical value.
pub enum ShellTypeView {
    Zsh,
    Bash,
    Fish,
    Unknown(Seq<char>),
}

impl View for ShellType {
    type V = ShellTypeView;

    open spec fn view(&self) -> ShellTypeView {
        match self {
            ShellType::Zsh => ShellTypeView::Zsh,
            ShellType::Bash => ShellTypeView::Bash,
            ShellType::Fish => ShellTypeView::Fish,
            ShellType::Unknown(s) => ShellTypeView::Unknown(s@),
        }
    }
}

pub fn classify_shell(path: &str) -> (r: ShellType)
    ensures
        r@ == spec_classify_shell(path@),
{
    let p = chars_of(path);
    if chars_end_with(&p, &vec!['/', 'z', 's', 'h']) || chars_end_with(&p, &vec!['/', 'z', 's', 'h', '5']) {
        ShellType::Zsh
    } else if chars_end_with(&p, &vec!['/', 'b', 'a', 's', 'h']) {
        ShellType::Bash
    } else if chars_end_with(&p, &vec!['/', 'f', 'i', 's', 'h']) {
        ShellType::Fish
    } else {
        let mut n = p.len();
        while n > 0 && p[n - 1] != '/'
            invariant
                n <= p@.len(),
                p@ == path@,
                after_last_slash(p@, n as int) == after_last_slash(p@, p@.len() as int),
            decreases n,
        {
            n = n - 1;
        }
        ShellType::Unknown(string_from_range(&p, n, p.len()))
    }
}

} // verus!
