//! The characters from which a tree of nodes is drawn.

use vstd::prelude::*;

verus! {

/// One set of drawing characters.
#[derive(Clone, Copy, Debug, PartialEq, Eq, Structural)]
pub struct Characters {
    pub hbar: char,
    pub vbar: char,
    pub xbar: char,
    pub vbar_break: char,
    pub vbar_gap: char,
    pub uarrow: char,
    pub rarrow: char,
    pub ltop: char,
    pub mtop: char,
    pub rtop: char,
    pub lbot: char,
    pub rbot: char,
    pub mbot: char,
    pub lbox: char,
    pub rbox: char,
    pub lcross: char,
    pub rcross: char,
    pub underbar: char,
    pub underline: char,
}

impl Characters {
    /// The set drawn with box-drawing characters.
    pub open spec fn unicode_set() -> Characters {
        Characters {
            hbar: '─',
            vbar: '│',
            xbar: '┼',
            vbar_break: '·',
            vbar_gap: '⋮',
            uarrow: '🭯',
            rarrow: '▶',
            ltop: '╭',
            mtop: '┬',
            rtop: '╮',
            lbot: '╰',
            mbot: '┴',
            rbot: '╯',
            lbox: '[',
            rbox: ']',
            lcross: '├',
            rcross: '┤',
            underbar: '┬',
            underline: '─',
        }
    }

    /// The set drawn with characters of the ASCII range only.
    pub open spec fn ascii_set() -> Characters {
        Characters {
            hbar: '-',
            vbar: '|',
            xbar: '+',
            vbar_break: '*',
            vbar_gap: ':',
            uarrow: '^',
            rarrow: '>',
            ltop: ',',
            mtop: 'v',
            rtop: '.',
            lbot: '`',
            mbot: '^',
            rbot: '\'',
            lbox: '[',
            rbox: ']',
            lcross: '|',
            rcross: '|',
            underbar: '|',
            underline: '^',
        }
    }

    /// Every character of the set is in the ASCII range.
    pub open spec fn plain(self) -> bool {
        &&& (self.hbar as u32) < 128
        &&& (self.vbar as u32) < 128
        &&& (self.xbar as u32) < 128
        &&& (self.vbar_break as u32) < 128
        &&& (self.vbar_gap as u32) < 128
        &&& (self.uarrow as u32) < 128
        &&& (self.rarrow as u32) < 128
        &&& (self.ltop as u32) < 128
        &&& (self.mtop as u32) < 128
        &&& (self.rtop as u32) < 128
        &&& (self.lbot as u32) < 128
        &&& (self.rbot as u32) < 128
        &&& (self.mbot as u32) < 128
        &&& (self.lbox as u32) < 128
        &&& (self.rbox as u32) < 128
        &&& (self.lcross as u32) < 128
        &&& (self.rcross as u32) < 128
        &&& (self.underbar as u32) < 128
        &&& (self.underline as u32) < 128
    }

    /// The set drawn with box-drawing characters.
    pub fn unicode() -> (res: Characters)
        ensures
            res == Characters::unicode_set(),
    {
        Characters {
            hbar: '─',
            vbar: '│',
            xbar: '┼',
            vbar_break: '·',
            vbar_gap: '⋮',
            uarrow: '🭯',
            rarrow: '▶',
            ltop: '╭',
            mtop: '┬',
            rtop: '╮',
            lbot: '╰',
            mbot: '┴',
            rbot: '╯',
            lbox: '[',
            rbox: ']',
            lcross: '├',
            rcross: '┤',
            underbar: '┬',
            underline: '─',
        }
    }

    /// The set drawn with characters of the ASCII range only.
    pub fn ascii() -> (res: Characters)
        ensures
            res == Characters::ascii_set(),
            res.plain(),
    {
        Characters {
            hbar: '-',
            vbar: '|',
            xbar: '+',
            vbar_break: '*',
            vbar_gap: ':',
            uarrow: '^',
            rarrow: '>',
            ltop: ',',
            mtop: 'v',
            rtop: '.',
            lbot: '`',
            mbot: '^',
            rbot: '\'',
            lbox: '[',
            rbox: ']',
            lcross: '|',
            rcross: '|',
            underbar: '|',
            underline: '^',
        }
    }
}

} // verus!
