//! Block alignment: where a block of text sits relative to its anchor point.

use crate::text::{contains_seq, has_char, occurs_at, occurs_in, to_chars};
use vstd::prelude::*;

verus! {

/// Horizontal anchoring of a block.
#[derive(Debug, Clone, Copy, PartialEq, Eq, Structural)]
pub enum HDir {
    Left,
    Mid,
    Right,
}

/// Vertical anchoring of a block.
#[derive(Debug, Clone, Copy, PartialEq, Eq, Structural)]
pub enum VDir {
    Top,
    Center,
    Bottom,
}

/// What an alignment descriptor asks for.
#[derive(Debug, Clone, Copy, PartialEq, Eq, Structural)]
pub struct TextAlignment {
    pub hdir: HDir,
    pub vdir: VDir,
    pub is_vert: bool,
}

impl Default for HDir {
    /// A block is anchored in the middle unless it is told otherwise.
    fn default() -> (dir: HDir)
        ensures
            dir == HDir::Mid,
    {
        HDir::Mid
    }
}

impl Default for VDir {
    /// A block is anchored at its centre unless it is told otherwise.
    fn default() -> (dir: VDir)
        ensures
            dir == VDir::Center,
    {
        VDir::Center
    }
}

impl Default for TextAlignment {
    /// The alignment of a descriptor that names nothing.
    fn default() -> (alignment: TextAlignment)
        ensures
            alignment == alignment_of(Seq::empty()),
    {
        proof {
            lemma_nothing_named(Seq::empty());
        }
        TextAlignment { hdir: HDir::Mid, vdir: VDir::Center, is_vert: false }
    }
}

/// The word that marks vertical writing.
pub open spec fn vertical_mark() -> Seq<char> {
    seq!['縦', '書']
}

/// The horizontal anchoring a descriptor names: left before right, middle when it names neither.
pub open spec fn hdir_of(s: Seq<char>) -> HDir {
    if s.contains('左') {
        HDir::Left
    } else if s.contains('右') {
        HDir::Right
    } else {
        HDir::Mid
    }
}

/// The vertical anchoring a descriptor names: top before bottom, centre when it names neither.
pub open spec fn vdir_of(s: Seq<char>) -> VDir {
    if s.contains('上') {
        VDir::Top
    } else if s.contains('下') {
        VDir::Bottom
    } else {
        VDir::Center
    }
}

/// The alignment a descriptor stands for.
pub open spec fn alignment_of(s: Seq<char>) -> TextAlignment {
    TextAlignment { hdir: hdir_of(s), vdir: vdir_of(s), is_vert: occurs_in(s, vertical_mark()) }
}

/// A descriptor that holds none of the four direction marks anchors the block in the
/// middle, both ways; one that is too short for the word of vertical writing is
/// horizontal.
pub proof fn lemma_nothing_named(s: Seq<char>)
    ensures
        !s.contains('左') && !s.contains('右') ==> hdir_of(s) == HDir::Mid,
        !s.contains('上') && !s.contains('下') ==> vdir_of(s) == VDir::Center,
        s.len() < 2 ==> !alignment_of(s).is_vert,
{
    if s.len() < 2 {
        assert forall|i: int| !occurs_at(s, vertical_mark(), i) by {}
    }
}

/// Reads an alignment descriptor. A descriptor that names no direction gives `Mid` and `Center`.
pub fn parse_alignment(input: &str) -> (r: TextAlignment)
    ensures
        r == alignment_of(input@),
{
    let chars = to_chars(input);
    let s = chars.as_slice();
    let h = if has_char(s, '左') {
        HDir::Left
    } else if has_char(s, '右') {
        HDir::Right
    } else {
        HDir::Mid
    };
    let v = if has_char(s, '上') {
        VDir::Top
    } else if has_char(s, '下') {
        VDir::Bottom
    } else {
        VDir::Center
    };
    let mark: [char; 2] = ['縦', '書'];
    assert(mark@ =~= vertical_mark());
    let is_vert = contains_seq(s, mark.as_slice());
    TextAlignment { hdir: h, vdir: v, is_vert }
}

} // verus!
