//! The values the diff engines produce and the panes display.

use vstd::prelude::*;

verus! {

/// How a displayed line of a two-way diff relates the two sides.
#[derive(Debug, Clone, Copy, PartialEq, Eq, Structural)]
pub enum LineStatus {
    Equal,
    Added,
    Removed,
    Modified,
}

/// A run of characters of a modified line, marked when it differs from the
/// other side.
#[derive(Debug, Clone)]
pub struct WordDiffSegment {
    pub text: String,
    pub changed: bool,
}

/// One displayed row of a two-way diff. Line numbers count from 1; `None`
/// is a ghost line on that side.
#[derive(Debug, Clone)]
pub struct DiffLine {
    pub left_line_no: Option<u32>,
    pub right_line_no: Option<u32>,
    pub left_text: String,
    pub right_text: String,
    pub status: LineStatus,
    pub left_word_segments: Vec<WordDiffSegment>,
    pub right_word_segments: Vec<WordDiffSegment>,
}

/// A two-way diff: the displayed rows, the number of difference blocks and
/// the row at which each block starts.
#[derive(Debug, Clone)]
pub struct DiffResult {
    pub lines: Vec<DiffLine>,
    pub diff_count: u32,
    pub diff_positions: Vec<usize>,
}

/// How a displayed line of a three-way merge relates the three texts.
#[derive(Debug, Clone, Copy, PartialEq, Eq, Structural)]
pub enum ThreeWayStatus {
    Equal,
    LeftChanged,
    RightChanged,
    BothChanged,
    Conflict,
}

/// One displayed row of a three-way merge. Line numbers count from 1.
#[derive(Debug, Clone, Copy, PartialEq, Eq, Structural)]
pub struct ThreeWayLine {
    pub status: ThreeWayStatus,
    pub base_line_no: Option<u32>,
    pub left_line_no: Option<u32>,
    pub right_line_no: Option<u32>,
}

/// A three-way merge view: rows, the number of conflicting blocks and the
/// row at which each changed block starts.
#[derive(Debug, Clone)]
pub struct ThreeWayResult {
    pub lines: Vec<ThreeWayLine>,
    pub conflict_count: u32,
    pub diff_positions: Vec<usize>,
}

/// How a file of a directory comparison relates the two trees.
#[derive(Debug, Clone, Copy, PartialEq, Eq, Structural)]
pub enum DirEntryStatus {
    LeftOnly,
    RightOnly,
    Equal,
    Changed,
}

/// One file of a directory comparison; times are seconds since the epoch.
#[derive(Debug, Clone)]
pub struct DirEntry {
    pub rel_path: String,
    pub status: DirEntryStatus,
    pub left_modified: Option<u64>,
    pub right_modified: Option<u64>,
    pub left_size: Option<u64>,
    pub right_size: Option<u64>,
}

/// Git context attached to a DirCompareResult when comparing revisions.
#[derive(Debug, Clone)]
pub struct GitContext {
    pub repo: String,
    pub ref1: String,
    /// `None` stands for the working tree.
    pub ref2: Option<String>,
}

/// A directory comparison together with the selection in its listing.
#[derive(Debug, Clone)]
pub struct DirCompareResult {
    pub left_dir: String,
    pub right_dir: String,
    pub entries: Vec<DirEntry>,
    pub selected: usize,
    pub scroll_offset: usize,
    pub git_context: Option<GitContext>,
}

} // verus!
