//! The quick preview of a file: its text, its place, and the diffs that it has been through.
use crate::age::format_relative_age;
use crate::diff::{untracked_binary_diff, untracked_text_diff};
use crate::layout_store::is_visible;
use crate::lines::{
    ascii_lowercase, byte_total, count_within, join, lines, lists, longer_than_bytes,
    position_from, remove_char, unicode_lowercase,
};
use crate::number::{decimal_i64, decimal_text, parse_i64};
use crate::text::{chars_of, concat, concat3, contains, owned, same, text_of_range, trim};
use vstd::prelude::*;
#[allow(unused_imports)]
use crate::age::{ago, seconds_since};
#[allow(unused_imports)]
use crate::diff::{new_binary_diff, new_file_diff};
#[allow(unused_imports)]
use crate::lines::{
    ascii_lower, byte_len, chars_within, is_boundary, joined, lemma_chars_within,
    lemma_lines_joined, lemma_trimmed_without_cr, lines_meet, lines_of, position, unicode_lower,
    without_char, without_cr,
};
#[allow(unused_imports)]
use crate::number::{decimal, parsed_i64, signed_decimal};
#[allow(unused_imports)]
use crate::text::{contains_text, str_option, trimmed};

verus! {

// ---------------------------------------------------------------------------------------------
// Bytes
// ---------------------------------------------------------------------------------------------
/// What `String::from_utf8_lossy` makes of bytes: their text, with a replacement character
/// wherever they are not UTF-8.
pub uninterp spec fn lossy_text(bytes: Seq<u8>) -> Seq<char>;

/// `String::from_utf8_lossy`. Its result depends on the bytes alone; nothing more is said of it.
#[verifier::external_body]
fn text_from_bytes(bytes: &Vec<u8>) -> (r: String)
    ensures
        r@ == lossy_text(bytes@),
{
    String::from_utf8_lossy(bytes).into_owned()
}

/// Whether bytes are not taken for text: there is a zero among the first 512.
pub open spec fn looks_binary(bytes: Seq<u8>) -> bool {
    exists|i: int| 0 <= i < bytes.len() && i < 512 && bytes[i] == 0
}

pub fn is_binary(bytes: &Vec<u8>) -> (r: bool)
    ensures
        r == looks_binary(bytes@),
{
    let mut i: usize = 0;
    while i < bytes.len() && i < 512
        invariant
            i <= bytes@.len(),
            i <= 512,
            forall|k: int| 0 <= k < i ==> bytes@[k] != 0,
        decreases bytes.len() - i,
    {
        if bytes[i] == 0 {
            return true;
        }
        i += 1;
    }
    false
}

// ---------------------------------------------------------------------------------------------
// The text of a file
// ---------------------------------------------------------------------------------------------
pub const PREVIEW_BYTES: usize = 300_000;

pub const PREVIEW_FILE_BYTES: u64 = 1_048_576;

/// Whether the text can be cut where the preview ends.
pub open spec fn can_be_cut(text: Seq<char>) -> bool {
    byte_len(text) > 300_000 ==> is_boundary(text, 300_000)
}

/// The text of a preview: all of it, or its first 300,000 bytes and a note.
pub open spec fn limited(text: Seq<char>) -> Seq<char> {
    if byte_len(text) > 300_000 {
        text.take(chars_within(text, 300_000) as int)
            + "\n\n--- Preview truncated to first 300KB ---"@
    } else {
        text
    }
}

pub fn limit_preview_text(clean_text: &str) -> (r: String)
    requires
        can_be_cut(clean_text@),
    ensures
        r@ == limited(clean_text@),
{
    if longer_than_bytes(clean_text, PREVIEW_BYTES) {
        let chars = chars_of(clean_text);
        let k = count_within(&chars, PREVIEW_BYTES as u128);
        assert(chars@.subrange(0, k as int) =~= chars@.take(k as int));
        concat(
            text_of_range(&chars, 0, k).as_str(),
            "\n\n--- Preview truncated to first 300KB ---",
        )
    } else {
        owned(clean_text)
    }
}

/// What a preview shows.
#[derive(Debug)]
pub enum PreviewContent {
    Image,
    TooLarge { file_size: u64 },
    Unreadable,
    Binary,
    Text(String),
}

pub ghost enum PreviewModel {
    Image,
    TooLarge { file_size: u64 },
    Unreadable,
    Binary,
    Text(Seq<char>),
}

impl PreviewContent {
    pub open spec fn model(self) -> PreviewModel {
        match self {
            PreviewContent::Image => PreviewModel::Image,
            PreviewContent::TooLarge { file_size } => PreviewModel::TooLarge { file_size },
            PreviewContent::Unreadable => PreviewModel::Unreadable,
            PreviewContent::Binary => PreviewModel::Binary,
            PreviewContent::Text(text) => PreviewModel::Text(text@),
        }
    }
}

/// Whether an extension in lower case is that of an image.
pub open spec fn is_image_ending(ext: Seq<char>) -> bool {
    ||| ext == "png"@
    ||| ext == "jpg"@
    ||| ext == "jpeg"@
    ||| ext == "gif"@
    ||| ext == "bmp"@
    ||| ext == "webp"@
    ||| ext == "svg"@
    ||| ext == "ico"@
}

pub fn is_lower_image_extension(ext: &str) -> (r: bool)
    ensures
        r == is_image_ending(ext@),
{
    same(ext, "png") || same(ext, "jpg") || same(ext, "jpeg") || same(ext, "gif") || same(
        ext,
        "bmp",
    ) || same(ext, "webp") || same(ext, "svg") || same(ext, "ico")
}

pub open spec fn names_image(extension: Option<Seq<char>>) -> bool {
    match extension {
        Some(ext) => is_image_ending(unicode_lower(ext)),
        None => false,
    }
}

/// Whether a file with this extension is shown as an image.
pub fn is_image_extension(extension: Option<&str>) -> (r: bool)
    ensures
        r == names_image(
            match extension {
                Some(ext) => Some(ext@),
                None => None,
            },
        ),
{
    match extension {
        Some(ext) => {
            let lowered = unicode_lowercase(ext);
            is_lower_image_extension(lowered.as_str())
        },
        None => false,
    }
}

/// What is decided before a file is read: that it is an image, too large, or cannot be read.
pub open spec fn before_reading(is_image: bool, file_size: Option<u64>) -> Option<PreviewModel> {
    if is_image {
        Some(PreviewModel::Image)
    } else {
        match file_size {
            None => Some(PreviewModel::Unreadable),
            Some(file_size) => if file_size > 1_048_576 {
                Some(PreviewModel::TooLarge { file_size })
            } else {
                None
            },
        }
    }
}

pub fn preview_before_reading(is_image: bool, file_size: Option<u64>) -> (r: Option<
    PreviewContent,
>)
    ensures
        match r {
            Some(content) => before_reading(is_image, file_size) == Some(content.model()),
            None => before_reading(is_image, file_size) is None,
        },
{
    if is_image {
        return Some(PreviewContent::Image);
    }
    match file_size {
        None => Some(PreviewContent::Unreadable),
        Some(file_size) => if file_size > PREVIEW_FILE_BYTES {
            Some(PreviewContent::TooLarge { file_size })
        } else {
            None
        },
    }
}

/// What a file shows once it was read, given the text of its bytes.
pub open spec fn after_reading(binary: bool, text: Seq<char>) -> PreviewModel {
    if binary {
        PreviewModel::Binary
    } else {
        PreviewModel::Text(limited(without_char(text, '\0')))
    }
}

pub fn preview_of_text(binary: bool, text: &str) -> (r: PreviewContent)
    requires
        binary || can_be_cut(without_char(text@, '\0')),
    ensures
        r.model() == after_reading(binary, text@),
{
    if binary {
        PreviewContent::Binary
    } else {
        let clean = remove_char(text, '\0');
        PreviewContent::Text(limit_preview_text(clean.as_str()))
    }
}

/// What a file shows, given its bytes where it could be read; nothing where the preview would end
/// inside a character.
pub fn preview_of_bytes(bytes: Option<&Vec<u8>>) -> (r: Option<PreviewContent>)
    ensures
        match bytes {
            None => r matches Some(content) && content.model() == PreviewModel::Unreadable,
            Some(b) => match r {
                Some(content) => content.model() == after_reading(
                    looks_binary(b@),
                    lossy_text(b@),
                ),
                None => !looks_binary(b@) && !can_be_cut(without_char(lossy_text(b@), '\0')),
            },
        },
{
    match bytes {
        None => Some(PreviewContent::Unreadable),
        Some(b) => {
            if is_binary(b) {
                return Some(PreviewContent::Binary);
            }
            let text = text_from_bytes(b);
            let clean = remove_char(text.as_str(), '\0');
            if cut_falls_inside(clean.as_str()) {
                return None;
            }
            Some(preview_of_text(false, text.as_str()))
        },
    }
}

fn cut_falls_inside(clean: &str) -> (r: bool)
    ensures
        r == !can_be_cut(clean@),
{
    if !longer_than_bytes(clean, PREVIEW_BYTES) {
        return false;
    }
    let chars = chars_of(clean);
    let k = count_within(&chars, PREVIEW_BYTES as u128);
    proof {
        lemma_chars_within(chars@, 300_000);
    }
    let head = text_of_range(&chars, 0, k);
    assert(head@ =~= chars@.take(k as int));
    !longer_than_bytes(head.as_str(), PREVIEW_BYTES - 1)
}

// ---------------------------------------------------------------------------------------------
// Titles and places
// ---------------------------------------------------------------------------------------------
/// The place that a preview was opened at.
pub open spec fn place_hint(line: Option<u32>, column: Option<u32>) -> Seq<char> {
    match (line, column) {
        (Some(l), Some(c)) => " • L"@ + decimal(l as nat) + ":"@ + decimal(c as nat),
        (Some(l), None) => " • L"@ + decimal(l as nat),
        (None, _) => Seq::empty(),
    }
}

pub open spec fn meta_line(
    path: Seq<char>,
    modified: Seq<char>,
    line: Option<u32>,
    column: Option<u32>,
) -> Seq<char> {
    path + " • "@ + modified + place_hint(line, column)
}

/// The line under the title of a preview.
pub fn preview_meta_text(
    path: &str,
    modified: &str,
    target_line: Option<u32>,
    target_column: Option<u32>,
) -> (r: String)
    ensures
        r@ == meta_line(without_char(path@, '\0'), modified@, target_line, target_column),
{
    let clean = remove_char(path, '\0');
    let mut r = concat3(clean.as_str(), " • ", modified);
    let ghost head = r@;
    match target_line {
        Some(line) => {
            r.append(" • L");
            r.append(decimal_text(line as u64).as_str());
            if let Some(column) = target_column {
                r.append(":");
                r.append(decimal_text(column as u64).as_str());
            }
        },
        None => {},
    }
    assert(r@ =~= head + place_hint(target_line, target_column));
    r
}

/// The line, counted from zero, that is scrolled to.
pub open spec fn revealed_line(target: u32, line_count: int) -> int {
    let count = if line_count > 1 {
        line_count
    } else {
        1
    };
    let wanted = (if target > 0 {
        (target - 1) as u32
    } else {
        0u32
    }) as i32;
    if wanted < 0 {
        0
    } else if wanted > count - 1 {
        count - 1
    } else {
        wanted as int
    }
}

pub fn line_to_reveal(target_line: u32, line_count: i32) -> (line: i32)
    ensures
        line == revealed_line(target_line, line_count as int),
        0 <= line,
        line_count > 0 ==> line < line_count,
{
    let count: i32 = if line_count > 1 {
        line_count
    } else {
        1
    };
    let from_zero: u32 = if target_line > 0 {
        target_line - 1
    } else {
        0
    };
    let wanted: i32 = from_zero as i32;
    if wanted < 0 {
        0
    } else if wanted > count - 1 {
        count - 1
    } else {
        wanted
    }
}

/// How many characters of the line are skipped.
pub open spec fn revealed_column(target: u32, line_chars: int) -> int {
    let wanted = (if target > 0 {
        (target - 1) as u32
    } else {
        0u32
    }) as i32;
    let count = if line_chars > 0 {
        line_chars
    } else {
        0
    };
    if wanted < count {
        wanted as int
    } else {
        count
    }
}

pub fn chars_to_skip(target_column: u32, line_chars: i32) -> (skip: i32)
    ensures
        skip == revealed_column(target_column, line_chars as int),
{
    let from_zero: u32 = if target_column > 0 {
        target_column - 1
    } else {
        0
    };
    let wanted: i32 = from_zero as i32;
    let count: i32 = if line_chars > 0 {
        line_chars
    } else {
        0
    };
    if wanted < count {
        wanted
    } else {
        count
    }
}

/// The title of the preview of a file: its name, without zeros.
pub open spec fn name_title(file_name: Option<Seq<char>>) -> Seq<char> {
    match file_name {
        Some(name) => without_char(name, '\0'),
        None => "Unknown"@,
    }
}

pub fn file_title(file_name: Option<&str>) -> (r: String)
    ensures
        r@ == name_title(str_option(file_name)),
{
    match file_name {
        Some(name) => remove_char(name, '\0'),
        None => owned("Unknown"),
    }
}

/// The title of the diff of a file: its path in the repository, or its name.
pub open spec fn diff_title(relative_path: Seq<char>, file_name: Option<Seq<char>>) -> Seq<char> {
    let path = without_char(relative_path, '\0');
    if path.len() > 0 {
        path
    } else {
        name_title(file_name)
    }
}

pub fn git_diff_title(relative_path: &str, file_name: Option<&str>) -> (r: String)
    ensures
        r@ == diff_title(relative_path@, str_option(file_name)),
{
    let path = remove_char(relative_path, '\0');
    if !path.as_str().is_empty() {
        return path;
    }
    file_title(file_name)
}

/// The components of a path, without zeros, with slashes between them.
pub open spec fn slashed(components: Seq<Seq<char>>) -> Seq<char> {
    joined(Seq::new(components.len(), |i: int| without_char(components[i], '\0')), "/"@)
}

pub fn normalize_relative_path(components: &Vec<String>) -> (r: String)
    ensures
        r@ == slashed(components.deep_view()),
{
    let mut clean: Vec<String> = Vec::new();
    let mut i: usize = 0;
    let ghost all = components.deep_view();
    let ghost want = Seq::new(all.len(), |k: int| without_char(all[k], '\0'));
    while i < components.len()
        invariant
            i <= components@.len(),
            all == components.deep_view(),
            want == Seq::new(all.len(), |k: int| without_char(all[k], '\0')),
            clean.deep_view() == want.take(i as int),
        decreases components.len() - i,
    {
        let ghost before = clean.deep_view();
        let piece = remove_char(components[i].as_str(), '\0');
        clean.push(piece);
        i += 1;
        assert(clean.deep_view() =~= before.push(piece@));
        assert(clean.deep_view() =~= want.take(i as int));
    }
    assert(clean.deep_view() =~= want);
    join(&clean, "/")
}

// ---------------------------------------------------------------------------------------------
// Diffs of the working tree
// ---------------------------------------------------------------------------------------------
/// Whether a file is new to the repository.
pub fn is_untracked_status(status: &str) -> (r: bool)
    ensures
        r == (trimmed(status@) == "??"@),
{
    same(trim(status).as_str(), "??")
}

/// The diff of a file that is new to the repository, given its bytes where it could be read.
pub fn build_untracked_diff_preview(bytes: Option<&Vec<u8>>, relative_path: &str) -> (r: String)
    ensures
        r@ == (match bytes {
            None => "No diff available for this file."@,
            Some(b) => if looks_binary(b@) {
                new_binary_diff(relative_path@)
            } else {
                new_file_diff(relative_path@, without_char(lossy_text(b@), '\0'))
            },
        }),
{
    match bytes {
        None => owned("No diff available for this file."),
        Some(b) => {
            if is_binary(b) {
                return untracked_binary_diff(relative_path);
            }
            let text = text_from_bytes(b);
            let clean = remove_char(text.as_str(), '\0');
            untracked_text_diff(relative_path, clean.as_str())
        },
    }
}

/// A diff, or what is said where it is blank.
pub open spec fn diff_or(diff: Seq<char>, message: Seq<char>) -> Seq<char> {
    if trimmed(diff).len() == 0 {
        message
    } else {
        diff
    }
}

/// What the working tree has changed of a file, else what is staged, else that there is nothing.
pub open spec fn working_diff(unstaged: Seq<char>, staged: Seq<char>) -> Seq<char> {
    if trimmed(unstaged).len() == 0 {
        diff_or(staged, "No diff available for this file."@)
    } else {
        unstaged
    }
}

/// Whether the staged changes have to be asked for.
pub fn needs_staged_diff(unstaged: &str) -> (r: bool)
    ensures
        r == (trimmed(unstaged@).len() == 0),
{
    !is_visible(unstaged)
}

pub fn choose_git_diff(unstaged: &str, staged: &str) -> (r: String)
    ensures
        r@ == working_diff(unstaged@, staged@),
{
    if is_visible(unstaged) {
        owned(unstaged)
    } else if is_visible(staged) {
        owned(staged)
    } else {
        owned("No diff available for this file.")
    }
}

/// The diff of a commit, or that there is none.
pub fn commit_file_diff(diff_text: &str) -> (r: String)
    ensures
        r@ == diff_or(diff_text@, "No diff available for this commit and file."@),
{
    if is_visible(diff_text) {
        owned(diff_text)
    } else {
        owned("No diff available for this commit and file.")
    }
}

// ---------------------------------------------------------------------------------------------
// Checkpoints
// ---------------------------------------------------------------------------------------------
/// What a checkpoint changed of a file.
#[derive(Debug)]
pub struct CheckpointDiffEntry {
    pub checkpoint_id: i64,
    pub turn_id: String,
    pub created_at: i64,
    pub diff_text: String,
}

/// A row in a list of diffs.
#[derive(Debug)]
pub struct DiffListEntry {
    pub icon_name: String,
    pub title: String,
    pub subtitle: String,
}

/// What is known of the active thread when its checkpoints are asked for.
pub struct CheckpointLookup<'a> {
    pub last_active_thread_id: Option<&'a str>,
    pub thread_found: bool,
    pub remote_thread_id: Option<&'a str>,
    pub workspace_found: bool,
    pub inside_workspace: bool,
}

impl<'a> CheckpointLookup<'a> {
    /// Why there are no checkpoints to show, where that is known before they are read.
    pub open spec fn obstacle(self) -> Option<Seq<char>> {
        let active = match self.last_active_thread_id {
            Some(raw) => parsed_i64(raw@),
            None => None,
        };
        if active is None {
            Some("No active thread for checkpoint diffs."@)
        } else if !self.thread_found {
            Some("Active thread record is unavailable."@)
        } else if !(self.remote_thread_id matches Some(id) && trimmed(id@).len() > 0) {
            Some("Thread has no remote runtime id yet. Checkpoint diffs unavailable."@)
        } else if !self.workspace_found {
            Some("Workspace path not found for active thread."@)
        } else if !self.inside_workspace {
            Some("Current file is outside the active thread workspace."@)
        } else {
            None
        }
    }
}

pub fn checkpoint_obstacle(lookup: &CheckpointLookup) -> (r: Option<&'static str>)
    ensures
        match r {
            Some(message) => lookup.obstacle() == Some(message@),
            None => lookup.obstacle() is None,
        },
{
    let active = match lookup.last_active_thread_id {
        Some(raw) => parse_i64(raw),
        None => None,
    };
    if active.is_none() {
        return Some("No active thread for checkpoint diffs.");
    }
    if !lookup.thread_found {
        return Some("Active thread record is unavailable.");
    }
    let has_remote = match lookup.remote_thread_id {
        Some(id) => is_visible(id),
        None => false,
    };
    if !has_remote {
        return Some("Thread has no remote runtime id yet. Checkpoint diffs unavailable.");
    }
    if !lookup.workspace_found {
        return Some("Workspace path not found for active thread.");
    }
    if !lookup.inside_workspace {
        return Some("Current file is outside the active thread workspace.");
    }
    None
}

/// The entries whose diff is more than whitespace.
pub open spec fn with_diff(entries: Seq<CheckpointDiffEntry>) -> Seq<CheckpointDiffEntry>
    decreases entries.len(),
{
    if entries.len() == 0 {
        Seq::empty()
    } else if trimmed(entries.last().diff_text@).len() == 0 {
        with_diff(entries.drop_last())
    } else {
        with_diff(entries.drop_last()).push(entries.last())
    }
}

/// The checkpoints that changed the file, and what is said where there is none.
pub fn keep_checkpoint_diffs(entries: Vec<CheckpointDiffEntry>) -> (r: (
    Vec<CheckpointDiffEntry>,
    String,
))
    ensures
        r.0@ == with_diff(entries@),
        r.1@ == (if with_diff(entries@).len() == 0 {
            "No checkpoint diffs found for this file."@
        } else {
            Seq::empty()
        }),
{
    let ghost all = entries@;
    let mut kept: Vec<CheckpointDiffEntry> = Vec::new();
    assert(all.take(0) =~= Seq::empty());
    for entry in it: entries
        invariant
            it.seq() == all,
            kept@ == with_diff(all.take(it.index())),
    {
        let ghost i = it.index();
        assert(all.take(i + 1).drop_last() =~= all.take(i));
        assert(all.take(i + 1).last() == entry);
        if is_visible(entry.diff_text.as_str()) {
            kept.push(entry);
        }
    }
    assert(all.take(all.len() as int) =~= all);
    let message = if kept.len() == 0 {
        owned("No checkpoint diffs found for this file.")
    } else {
        String::new()
    };
    (kept, message)
}

/// The end of a turn identifier: its last 14 bytes.
pub open spec fn turn_tail(turn_id: Seq<char>) -> Seq<char> {
    if byte_len(turn_id) > 14 {
        turn_id.skip(chars_within(turn_id, byte_len(turn_id) - 14) as int)
    } else {
        turn_id
    }
}

/// Whether the last 14 bytes of an identifier are whole characters.
pub open spec fn has_tail(turn_id: Seq<char>) -> bool {
    byte_len(turn_id) > 14 ==> is_boundary(turn_id, byte_len(turn_id) - 14)
}

/// Whether the last 14 bytes of an identifier are whole characters.
pub fn turn_has_tail(turn_id: &str) -> (r: bool)
    ensures
        r == has_tail(turn_id@),
{
    let chars = chars_of(turn_id);
    let n = byte_total(&chars);
    if n <= 14 {
        return true;
    }
    let k = count_within(&chars, n - 14);
    proof {
        lemma_chars_within(chars@, (n - 14) as int);
    }
    let head = text_of_range(&chars, 0, k);
    assert(head@ =~= chars@.take(k as int));
    byte_total(&chars_of(head.as_str())) == n - 14
}

/// The short label of a turn.
pub fn compact_turn_label(turn_id: &str) -> (r: String)
    requires
        has_tail(turn_id@),
    ensures
        r@ == "Turn "@ + turn_tail(turn_id@),
{
    if longer_than_bytes(turn_id, 14) {
        let chars = chars_of(turn_id);
        let n = byte_total(&chars);
        let k = count_within(&chars, n - 14);
        let tail = text_of_range(&chars, k, chars.len());
        assert(tail@ =~= chars@.skip(k as int));
        concat("Turn ", tail.as_str())
    } else {
        concat("Turn ", turn_id)
    }
}

/// The row of a checkpoint.
pub fn checkpoint_row(entry: &CheckpointDiffEntry, now: i64) -> (r: DiffListEntry)
    requires
        has_tail(entry.turn_id@),
    ensures
        r.icon_name@ == "revert-symbolic"@,
        r.title@ == "Turn "@ + turn_tail(entry.turn_id@) + " • #"@ + signed_decimal(
            entry.checkpoint_id as int,
        ),
        r.subtitle@ == ago(seconds_since(now, entry.created_at)),
{
    DiffListEntry {
        icon_name: owned("revert-symbolic"),
        title: concat3(
            compact_turn_label(entry.turn_id.as_str()).as_str(),
            " • #",
            decimal_i64(entry.checkpoint_id).as_str(),
        ),
        subtitle: format_relative_age(now, entry.created_at),
    }
}

/// What is shown of a checkpoint that was picked, and the line above it.
pub fn picked_checkpoint(entry: &CheckpointDiffEntry, now: i64) -> (r: (String, String))
    requires
        has_tail(entry.turn_id@),
    ensures
        r.0@ == diff_or(entry.diff_text@, "No diff available for this checkpoint."@),
        r.1@ == "Checkpoint #"@ + signed_decimal(entry.checkpoint_id as int) + " • "@ + ago(
            seconds_since(now, entry.created_at),
        ) + " • "@ + ("Turn "@ + turn_tail(entry.turn_id@)),
{
    let text = if is_visible(entry.diff_text.as_str()) {
        owned(entry.diff_text.as_str())
    } else {
        owned("No diff available for this checkpoint.")
    };
    let mut meta = concat3("Checkpoint #", decimal_i64(entry.checkpoint_id).as_str(), " • ");
    meta.append(format_relative_age(now, entry.created_at).as_str());
    meta.append(" • ");
    meta.append(compact_turn_label(entry.turn_id.as_str()).as_str());
    (text, meta)
}

/// The position of the checkpoint with an identifier.
pub fn checkpoint_row_index(entries: &Vec<CheckpointDiffEntry>, checkpoint_id: i64) -> (r: Option<
    usize,
>)
    ensures
        match r {
            Some(i) => i < entries@.len() && entries@[i as int].checkpoint_id == checkpoint_id
                && forall|k: int| 0 <= k < i ==> entries@[k].checkpoint_id != checkpoint_id,
            None => forall|k: int|
                0 <= k < entries@.len() ==> entries@[k].checkpoint_id != checkpoint_id,
        },
{
    let mut i: usize = 0;
    while i < entries.len()
        invariant
            i <= entries@.len(),
            forall|k: int| 0 <= k < i ==> entries@[k].checkpoint_id != checkpoint_id,
        decreases entries.len() - i,
    {
        if entries[i].checkpoint_id == checkpoint_id {
            return Some(i);
        }
        i += 1;
    }
    None
}

// ---------------------------------------------------------------------------------------------
// Commits
// ---------------------------------------------------------------------------------------------
/// A commit that changed a file.
#[derive(Debug)]
pub struct GitCommitEntry {
    pub commit: String,
    pub date: String,
    pub subject: String,
}

#[verifier::ext_equal]
pub ghost struct CommitModel {
    pub commit: Seq<char>,
    pub date: Seq<char>,
    pub subject: Seq<char>,
}

impl GitCommitEntry {
    pub open spec fn model(self) -> CommitModel {
        CommitModel { commit: self.commit@, date: self.date@, subject: self.subject@ }
    }
}

pub open spec fn commit_models(entries: Seq<GitCommitEntry>) -> Seq<CommitModel> {
    Seq::new(entries.len(), |i: int| entries[i].model())
}

/// The commit that a line of the log describes: three fields with tabs between them, the last of
/// which may hold tabs.
pub open spec fn commit_of(line: Seq<char>) -> Option<CommitModel> {
    let t = trimmed(line);
    let a = position(t, '\t') as int;
    if a >= t.len() {
        None
    } else {
        let rest = t.skip(a + 1);
        let b = position(rest, '\t') as int;
        if b >= rest.len() {
            None
        } else {
            Some(CommitModel { commit: t.take(a), date: rest.take(b), subject: rest.skip(b + 1) })
        }
    }
}

/// The commits that the lines describe.
pub open spec fn commits_of(all: Seq<Seq<char>>) -> Seq<CommitModel>
    decreases all.len(),
{
    if all.len() == 0 {
        Seq::empty()
    } else {
        match commit_of(all.last()) {
            Some(c) => commits_of(all.drop_last()).push(c),
            None => commits_of(all.drop_last()),
        }
    }
}

proof fn lemma_commits_added(a: Seq<Seq<char>>, b: Seq<Seq<char>>)
    ensures
        commits_of(a + b) == commits_of(a) + commits_of(b),
    decreases b.len(),
{
    if b.len() == 0 {
        assert(a + b =~= a);
        assert(commits_of(a) + commits_of(b) =~= commits_of(a));
    } else {
        assert((a + b).drop_last() =~= a + b.drop_last());
        lemma_commits_added(a, b.drop_last());
        assert(commits_of(a + b) =~= commits_of(a) + commits_of(b));
    }
}

/// Two logs with a line feed between them describe the commits of the one, then those of the other.
pub proof fn lemma_commit_log_joined(a: Seq<char>, b: Seq<char>)
    ensures
        commits_of(lines_of(a + "\n"@ + b)) == commits_of(lines_of(a)) + commits_of(lines_of(b)),
{
    lemma_lines_joined(a, b);
    let (head, last) = choose|head: Seq<Seq<char>>, last: Seq<char>| lines_meet(a, b, head, last);
    lemma_commits_added(head.push(without_cr(last)), lines_of(b));
    lemma_trimmed_without_cr(last);
    assert(head.push(without_cr(last)).drop_last() =~= head);
    assert(head.push(last).drop_last() =~= head);
}

fn parse_commit_line(line: &str) -> (r: Option<GitCommitEntry>)
    ensures
        match r {
            Some(e) => commit_of(line@) == Some(e.model()),
            None => commit_of(line@) is None,
        },
{
    let t = trim(line);
    let chars = chars_of(t.as_str());
    assert(chars@.skip(0) =~= chars@);
    let a = position_from(&chars, '\t', 0);
    if a >= chars.len() {
        return None;
    }
    let b = position_from(&chars, '\t', a + 1);
    if b >= chars.len() {
        return None;
    }
    let ghost rest = chars@.skip(a + 1);
    let entry = GitCommitEntry {
        commit: text_of_range(&chars, 0, a),
        date: text_of_range(&chars, a + 1, b),
        subject: text_of_range(&chars, b + 1, chars.len()),
    };
    assert(entry.commit@ =~= chars@.take(a as int));
    assert(entry.date@ =~= rest.take(b - a - 1));
    assert(entry.subject@ =~= rest.skip(b - a));
    Some(entry)
}

/// How far the search for the git history of a file came.
#[derive(Clone, Copy, Debug, PartialEq, Eq, Structural)]
pub enum HistoryLookup {
    NoDirectory,
    NoRepository,
    OutsideRepository,
    NoLog,
    Found,
}

/// Why there is no git history to show, where that is known before it is read.
pub fn commit_history_obstacle(lookup: HistoryLookup) -> (r: Option<&'static str>)
    ensures
        crate::text::str_option(r) == (match lookup {
            HistoryLookup::NoDirectory => Some("Unable to resolve file directory."@),
            HistoryLookup::NoRepository => Some("Git repository not available for this file."@),
            HistoryLookup::OutsideRepository => Some(
                "Current file is outside the detected git repository."@,
            ),
            HistoryLookup::NoLog => Some("Unable to read git history for this file."@),
            HistoryLookup::Found => None,
        }),
{
    match lookup {
        HistoryLookup::NoDirectory => Some("Unable to resolve file directory."),
        HistoryLookup::NoRepository => Some("Git repository not available for this file."),
        HistoryLookup::OutsideRepository => Some(
            "Current file is outside the detected git repository.",
        ),
        HistoryLookup::NoLog => Some("Unable to read git history for this file."),
        HistoryLookup::Found => None,
    }
}

/// The commits in a log, and what is said where there is none.
pub fn parse_commit_log(log_text: &str) -> (r: (Vec<GitCommitEntry>, String))
    ensures
        commit_models(r.0@) == commits_of(lines_of(log_text@)),
        r.1@ == (if commits_of(lines_of(log_text@)).len() == 0 {
            "No git history entries for this file."@
        } else {
            Seq::empty()
        }),
{
    let all = lines(log_text);
    let ghost texts = all.deep_view();
    let mut entries: Vec<GitCommitEntry> = Vec::new();
    let mut i: usize = 0;
    assert(texts.take(0) =~= Seq::empty());
    assert(commit_models(entries@) =~= Seq::empty());
    while i < all.len()
        invariant
            i <= all@.len(),
            texts == all.deep_view(),
            commit_models(entries@) == commits_of(texts.take(i as int)),
        decreases all.len() - i,
    {
        assert(texts.take(i + 1).drop_last() =~= texts.take(i as int));
        assert(texts.take(i + 1).last() == all@[i as int]@);
        match parse_commit_line(all[i].as_str()) {
            Some(e) => {
                let ghost before = entries@;
                entries.push(e);
                assert(commit_models(entries@) =~= commit_models(before).push(e.model()));
            },
            None => {},
        }
        i += 1;
    }
    assert(texts.take(i as int) =~= texts);
    assert(commit_models(entries@).len() == entries@.len());
    let message = if entries.len() == 0 {
        owned("No git history entries for this file.")
    } else {
        String::new()
    };
    (entries, message)
}

/// The row of a commit.
pub fn commit_row(entry: &GitCommitEntry) -> (r: DiffListEntry)
    ensures
        r.icon_name@ == "commit-symbolic"@,
        r.title@ == entry.commit@ + " "@ + entry.subject@,
        r.subtitle@ == entry.date@,
{
    DiffListEntry {
        icon_name: owned("commit-symbolic"),
        title: concat3(entry.commit.as_str(), " ", entry.subject.as_str()),
        subtitle: owned(entry.date.as_str()),
    }
}

/// The line above the diff of a commit.
pub fn commit_meta(entry: &GitCommitEntry) -> (r: String)
    ensures
        r@ == entry.commit@ + " ("@ + entry.date@ + ") • "@ + entry.subject@,
{
    let mut r = concat3(entry.commit.as_str(), " (", entry.date.as_str());
    r.append(") • ");
    r.append(entry.subject.as_str());
    r
}

/// Which diff is shown when the list of diffs was filled anew.
#[derive(Clone, Copy, Debug, PartialEq, Eq, Structural)]
pub enum DiffSelection {
    FirstCheckpoint,
    FirstCommit,
    Nothing,
}

pub fn select_diff_source(checkpoints: usize, commits: usize) -> (r: DiffSelection)
    ensures
        r == (if checkpoints > 0 {
            DiffSelection::FirstCheckpoint
        } else if commits > 0 {
            DiffSelection::FirstCommit
        } else {
            DiffSelection::Nothing
        }),
{
    if checkpoints > 0 {
        DiffSelection::FirstCheckpoint
    } else if commits > 0 {
        DiffSelection::FirstCommit
    } else {
        DiffSelection::Nothing
    }
}

// ---------------------------------------------------------------------------------------------
// Style schemes
// ---------------------------------------------------------------------------------------------
/// The position of the first scheme whose name speaks of a dark one, or their number.
pub open spec fn first_dark(available: Seq<Seq<char>>) -> nat
    decreases available.len(),
{
    if available.len() == 0 || contains_text(ascii_lower(available[0]), "dark"@) {
        0
    } else {
        1 + first_dark(available.drop_first())
    }
}

/// The scheme that a preview is shown in: the first of the preferred ones that is there, else the
/// first dark one.
pub open spec fn preview_scheme(
    preferred: Seq<Seq<char>>,
    available: Seq<Seq<char>>,
) -> Option<Seq<char>>
    decreases preferred.len(),
{
    if preferred.len() == 0 {
        if first_dark(available) < available.len() {
            Some(available[first_dark(available) as int])
        } else {
            None
        }
    } else if available.contains(preferred[0]) {
        Some(preferred[0])
    } else {
        preview_scheme(preferred.drop_first(), available)
    }
}

pub fn choose_style_scheme(preferred: &Vec<String>, available: &Vec<String>) -> (r: Option<String>)
    ensures
        match r {
            Some(name) => preview_scheme(preferred.deep_view(), available.deep_view()) == Some(
                name@,
            ),
            None => preview_scheme(preferred.deep_view(), available.deep_view()) is None,
        },
{
    let ghost want = preferred.deep_view();
    let ghost have = available.deep_view();
    let mut i: usize = 0;
    assert(want.skip(0) =~= want);
    while i < preferred.len()
        invariant
            i <= preferred@.len(),
            want == preferred.deep_view(),
            have == available.deep_view(),
            preview_scheme(want, have) == preview_scheme(want.skip(i as int), have),
        decreases preferred.len() - i,
    {
        assert(want.skip(i as int).drop_first() =~= want.skip(i + 1));
        if lists(available, preferred[i].as_str()) {
            return Some(preferred[i].clone());
        }
        i += 1;
    }
    let mut k: usize = 0;
    assert(have.skip(0) =~= have);
    while k < available.len()
        invariant
            i == preferred@.len(),
            k <= available@.len(),
            want == preferred.deep_view(),
            have == available.deep_view(),
            preview_scheme(want, have) == preview_scheme(want.skip(i as int), have),
            first_dark(have) == k + first_dark(have.skip(k as int)),
        decreases available.len() - k,
    {
        assert(have.skip(k as int).drop_first() =~= have.skip(k + 1));
        if contains(ascii_lowercase(available[k].as_str()).as_str(), "dark") {
            return Some(available[k].clone());
        }
        k += 1;
    }
    None
}

/// The schemes that a preview may be shown in, the best first.
pub open spec fn preferred_schemes() -> Seq<Seq<char>> {
    seq![
        "enzimcoder-preview-dark"@,
        "oblivion"@,
        "solarized-dark"@,
        "Adwaita-dark"@,
        "adwaita-dark"@,
        "classic-dark"@,
    ]
}

pub fn preferred_style_schemes() -> (r: Vec<String>)
    ensures
        r.deep_view() == preferred_schemes(),
{
    let mut r: Vec<String> = Vec::new();
    r.push(owned("enzimcoder-preview-dark"));
    r.push(owned("oblivion"));
    r.push(owned("solarized-dark"));
    r.push(owned("Adwaita-dark"));
    r.push(owned("adwaita-dark"));
    r.push(owned("classic-dark"));
    assert(r.deep_view() =~= preferred_schemes());
    r
}

/// The scheme that the preview's own one builds on: the best of the others that is there.
pub open spec fn scheme_parent(available: Seq<Seq<char>>) -> Option<Seq<char>> {
    first_of(preferred_schemes().drop_first(), available)
}

/// The first of the wanted texts that is there.
pub open spec fn first_of(wanted: Seq<Seq<char>>, available: Seq<Seq<char>>) -> Option<Seq<char>>
    decreases wanted.len(),
{
    if wanted.len() == 0 {
        None
    } else if available.contains(wanted[0]) {
        Some(wanted[0])
    } else {
        first_of(wanted.drop_first(), available)
    }
}

pub fn preview_scheme_parent(available: &Vec<String>) -> (r: Option<String>)
    ensures
        crate::layout_store::text_of_option(r) == scheme_parent(available.deep_view()),
{
    let preferred = preferred_style_schemes();
    let ghost want = preferred_schemes();
    let ghost have = available.deep_view();
    let mut i: usize = 1;
    assert(want.skip(1) =~= want.drop_first());
    while i < preferred.len()
        invariant
            1 <= i <= preferred@.len(),
            want == preferred.deep_view(),
            have == available.deep_view(),
            scheme_parent(have) == first_of(want.skip(i as int), have),
        decreases preferred.len() - i,
    {
        assert(want.skip(i as int).drop_first() =~= want.skip(i + 1));
        if lists(available, preferred[i].as_str()) {
            return Some(preferred[i].clone());
        }
        i += 1;
    }
    None
}

/// The attribute that names the parent of a scheme.
pub open spec fn parent_attribute(parent: Option<Seq<char>>) -> Seq<char> {
    match parent {
        Some(scheme) => " parent-scheme=\""@ + scheme + "\""@,
        None => Seq::empty(),
    }
}

/// The description of the preview's own scheme.
pub fn preview_scheme_xml(parent: Option<&str>) -> (r: String)
    ensures
        r@ == SCHEME_HEAD@ + parent_attribute(crate::text::str_option(parent)) + SCHEME_BODY@,
{
    let mut r = owned(SCHEME_HEAD);
    match parent {
        Some(scheme) => r.append(concat3(" parent-scheme=\"", scheme, "\"").as_str()),
        None => {},
    }
    assert(r@ =~= SCHEME_HEAD@ + parent_attribute(crate::text::str_option(parent)));
    r.append(SCHEME_BODY);
    r
}

/// What stands before the parent in the description of the preview's scheme.
pub const SCHEME_HEAD: &'static str = "<?xml version=\"1.0\" encoding=\"UTF-8\"?>\n<style-scheme id=\"enzimcoder-preview-dark\" name=\"Enzimcoder Preview Dark\" version=\"1.0\"";

/// What stands after it.
pub const SCHEME_BODY: &'static str = ">\n  <author>Enzimcoder</author>\n  <description>Deterministic dark background for quick preview.</description>\n  <color name=\"bg\" value=\"#17181c\"/>\n  <color name=\"fg\" value=\"#e6e6e6\"/>\n  <color name=\"line_bg\" value=\"#13141a\"/>\n  <color name=\"line_fg\" value=\"#7f8798\"/>\n  <color name=\"line_border\" value=\"#222633\"/>\n  <color name=\"line_current_fg\" value=\"#b9c1d1\"/>\n  <color name=\"selection\" value=\"#2d3342\"/>\n  <color name=\"selection_unfocused\" value=\"#2a2f3c\"/>\n  <color name=\"cursor\" value=\"#e6e6e6\"/>\n  <color name=\"current_line\" value=\"#1e212b\"/>\n  <style name=\"text\" foreground=\"fg\" background=\"bg\"/>\n  <style name=\"line-numbers\" foreground=\"line_fg\" background=\"line_bg\"/>\n  <style name=\"line-numbers-border\" background=\"line_border\"/>\n  <style name=\"current-line\" background=\"current_line\"/>\n  <style name=\"current-line-number\" foreground=\"line_current_fg\" background=\"line_bg\" bold=\"true\"/>\n  <style name=\"selection\" foreground=\"fg\" background=\"selection\"/>\n  <style name=\"selection-unfocused\" foreground=\"fg\" background=\"selection_unfocused\"/>\n  <style name=\"cursor\" foreground=\"cursor\"/>\n</style-scheme>\n";

} // verus!
