//! Pairs audio recordings with sibling transcript files, derives a short
//! filename label from each transcript's leading text, and plans renames of
//! the audio files into a `renamed` output subdirectory.
//!
//! The library works on plain values: the caller hands it a directory
//! listing and the transcript contents, and performs the actual filesystem
//! reads, directory creation and moves itself, feeding the per-file outcomes
//! back in. Paths are handled as strings with `/` as the separator; the
//! `pathstr` module defines the exact name/extension model, and the `label`
//! module the labeling policy.

use vstd::prelude::*;

pub mod config;
pub mod label;
pub mod pathstr;

use crate::label::{
    blank_count, clip20, label_spec, label_wf, lemma_blank_count_take_step, lemma_label_wf,
    derive_label,
};
use crate::pathstr::{
    extension_spec, ext_wf, file_name_spec, join_spec, with_extension_spec, check_ext,
    file_name_of, has_extension, join, with_extension,
};

verus! {

/// The failure conditions the pipeline reports. Per-file rename failures are
/// not among them: those are recorded on the entry itself.
#[derive(Debug, PartialEq, Eq)]
pub enum Error {
    /// A directory or transcript could not be read (raised by the caller
    /// performing the reads).
    IoError(String),
    /// A configured extension is unusable for matching.
    ExtensionError,
    /// The `renamed` output subdirectory could not be created (raised by the
    /// caller performing the creation); also raised when it already exists.
    FailedCreateRenamedFolder(String),
    /// A path had no parent directory where one was required.
    NoParent,
}

impl Error {
    /// The error's display text.
    pub fn message(&self) -> (r: String)
        ensures
            (match self {
                Error::IoError(s) => r@ == s@,
                Error::ExtensionError => r@ == "extension error"@,
                Error::FailedCreateRenamedFolder(s) => r@ == "failed create renamed folder"@
                    + s@,
                Error::NoParent => r@ == "no parent"@,
            }),
    {
        match self {
            Error::IoError(s) => s.clone(),
            Error::ExtensionError => "extension error".to_owned(),
            Error::FailedCreateRenamedFolder(s) => "failed create renamed folder".to_owned()
                .concat(s.as_str()),
            Error::NoParent => "no parent".to_owned(),
        }
    }
}

/// The per-entry rename outcome: a planned destination, no plan yet, or a
/// plan cleared by a failed rename. A cleared plan is never reset.
#[derive(Debug, PartialEq, Eq)]
pub enum PlanState {
    Planned(String),
    Unplanned,
    Failed,
}

/// One audio/transcript pairing: the audio path, the label derived for it,
/// and the planned destination.
#[derive(Debug, PartialEq, Eq)]
pub struct PathSet {
    pub audio_path: String,
    pub line: String,
    pub planned_destination: PlanState,
}

/// The display text of one entry: its audio path and its label line.
pub open spec fn path_set_text(e: PathSet) -> Seq<char> {
    "Audio: "@ + e.audio_path@ + "\n"@ + "Line: "@ + e.line@ + "\n"@
}

/// The display text of a collection: each entry's text, each followed by a
/// blank line.
pub open spec fn path_sets_text(entries: Seq<PathSet>) -> Seq<char>
    decreases entries.len(),
{
    if entries.len() == 0 {
        Seq::empty()
    } else {
        path_sets_text(entries.drop_last()) + path_set_text(entries.last()) + "\n"@
    }
}

impl PathSet {
    /// A fresh, not yet planned entry.
    pub fn new(audio_path: String, line: String) -> (r: PathSet)
        ensures
            r.audio_path == audio_path,
            r.line == line,
            r.planned_destination is Unplanned,
    {
        PathSet { audio_path, line, planned_destination: PlanState::Unplanned }
    }

    /// The entry's display text.
    pub fn describe(&self) -> (r: String)
        ensures
            r@ == path_set_text(*self),
    {
        let mut out: String = "Audio: ".to_owned();
        out.append(self.audio_path.as_str());
        out.append("\n");
        out.append("Line: ");
        out.append(self.line.as_str());
        out.append("\n");
        proof {
            assert(out@ =~= path_set_text(*self));
        }
        out
    }
}

/// Whether a scanned entry carries one of the two configured extensions.
pub open spec fn scan_keeps(p: Seq<char>, audio_ext: Seq<char>, line_ext: Seq<char>) -> bool {
    extension_spec(p) == Some(audio_ext) || extension_spec(p) == Some(line_ext)
}

/// Whether `p` is an audio file under the extension `audio_ext`.
pub open spec fn is_audio(p: Seq<char>, audio_ext: Seq<char>) -> bool {
    extension_spec(p) == Some(audio_ext)
}

/// The listing filtered to the two configured extensions, in order.
pub open spec fn scan_list(files: Seq<Seq<char>>, audio_ext: Seq<char>, line_ext: Seq<char>) -> Seq<
    Seq<char>,
>
    decreases files.len(),
{
    if files.len() == 0 {
        Seq::empty()
    } else {
        let rest = scan_list(files.drop_last(), audio_ext, line_ext);
        if scan_keeps(files.last(), audio_ext, line_ext) {
            rest.push(files.last())
        } else {
            rest
        }
    }
}

/// The audio files of a listing, in order.
pub open spec fn audio_list(files: Seq<Seq<char>>, audio_ext: Seq<char>) -> Seq<Seq<char>>
    decreases files.len(),
{
    if files.len() == 0 {
        Seq::empty()
    } else {
        let rest = audio_list(files.drop_last(), audio_ext);
        if is_audio(files.last(), audio_ext) {
            rest.push(files.last())
        } else {
            rest
        }
    }
}

proof fn lemma_scan_list_take_step(
    files: Seq<Seq<char>>,
    audio_ext: Seq<char>,
    line_ext: Seq<char>,
    i: int,
)
    requires
        0 <= i < files.len(),
    ensures
        scan_list(files.take(i + 1), audio_ext, line_ext) == if scan_keeps(
            files[i],
            audio_ext,
            line_ext,
        ) {
            scan_list(files.take(i), audio_ext, line_ext).push(files[i])
        } else {
            scan_list(files.take(i), audio_ext, line_ext)
        },
{
    assert(files.take(i + 1).drop_last() =~= files.take(i));
    assert(files.take(i + 1).last() == files[i]);
}

proof fn lemma_audio_list_take_step(files: Seq<Seq<char>>, audio_ext: Seq<char>, i: int)
    requires
        0 <= i < files.len(),
    ensures
        audio_list(files.take(i + 1), audio_ext) == if is_audio(files[i], audio_ext) {
            audio_list(files.take(i), audio_ext).push(files[i])
        } else {
            audio_list(files.take(i), audio_ext)
        },
{
    assert(files.take(i + 1).drop_last() =~= files.take(i));
    assert(files.take(i + 1).last() == files[i]);
}

proof fn lemma_audio_list_take_le(files: Seq<Seq<char>>, audio_ext: Seq<char>, i: int)
    requires
        0 <= i <= files.len(),
    ensures
        audio_list(files.take(i), audio_ext).len() <= audio_list(files, audio_ext).len(),
    decreases files.len() - i,
{
    if i == files.len() {
        assert(files.take(i) =~= files);
    } else {
        lemma_audio_list_take_step(files, audio_ext, i);
        lemma_audio_list_take_le(files, audio_ext, i + 1);
    }
}

/// Scanning keeps every audio file and drops nothing audible: the audio
/// files of the filtered listing are exactly those of the raw listing.
pub proof fn lemma_audio_of_scan(files: Seq<Seq<char>>, audio_ext: Seq<char>, line_ext: Seq<char>)
    ensures
        audio_list(scan_list(files, audio_ext, line_ext), audio_ext) == audio_list(
            files,
            audio_ext,
        ),
    decreases files.len(),
{
    if files.len() > 0 {
        lemma_audio_of_scan(files.drop_last(), audio_ext, line_ext);
        if scan_keeps(files.last(), audio_ext, line_ext) {
            let s = scan_list(files, audio_ext, line_ext);
            assert(s == scan_list(files.drop_last(), audio_ext, line_ext).push(files.last()));
            assert(s.len() > 0);
            assert(s.drop_last() =~= scan_list(files.drop_last(), audio_ext, line_ext));
            assert(s.last() == files.last());
        }
    }
}

/// The listing filtered to the configured extensions (the directory
/// scanner's selection rule; the listing itself comes from the caller).
pub fn get_file_list(files: &Vec<String>, audio_ext: &str, line_ext: &str) -> (r: Vec<String>)
    ensures
        r.deep_view() == scan_list(files.deep_view(), audio_ext@, line_ext@),
{
    let n = files.len();
    let mut r: Vec<String> = Vec::new();
    let mut i: usize = 0;
    proof {
        assert(files.deep_view().take(0) =~= Seq::<Seq<char>>::empty());
    }
    while i < n
        invariant
            i <= n,
            n == files@.len(),
            files.deep_view().len() == n,
            r.deep_view() == scan_list(files.deep_view().take(i as int), audio_ext@, line_ext@),
        decreases n - i,
    {
        let p = &files[i];
        proof {
            assert(files.deep_view()[i as int] == files@[i as int]@);
            lemma_scan_list_take_step(files.deep_view(), audio_ext@, line_ext@, i as int);
        }
        if has_extension(p.as_str(), audio_ext) || has_extension(p.as_str(), line_ext) {
            let ghost old_r = r.deep_view();
            r.push(p.clone());
            proof {
                assert(r.deep_view() =~= old_r.push(files.deep_view()[i as int]));
            }
        }
        i = i + 1;
    }
    proof {
        assert(files.deep_view().take(n as int) =~= files.deep_view());
    }
    r
}

/// The transcript path belonging to each audio file of the listing, in scan
/// order: the audio path with its extension replaced by the transcript
/// extension (the pair matcher's rule; whether those files exist is the
/// caller's concern).
pub fn transcript_paths(files: &Vec<String>, audio_ext: &str, line_ext: &str) -> (r: Vec<String>)
    ensures
        r.deep_view().len() == audio_list(files.deep_view(), audio_ext@).len(),
        forall|i: int|
            0 <= i < r.deep_view().len() ==> #[trigger] r.deep_view()[i] == with_extension_spec(
                audio_list(files.deep_view(), audio_ext@)[i],
                line_ext@,
            ),
{
    let n = files.len();
    let mut r: Vec<String> = Vec::new();
    let mut i: usize = 0;
    proof {
        assert(files.deep_view().take(0) =~= Seq::<Seq<char>>::empty());
    }
    while i < n
        invariant
            i <= n,
            n == files@.len(),
            files.deep_view().len() == n,
            r.deep_view().len() == audio_list(
                files.deep_view().take(i as int),
                audio_ext@,
            ).len(),
            forall|j: int|
                0 <= j < r.deep_view().len() ==> #[trigger] r.deep_view()[j]
                    == with_extension_spec(
                    audio_list(files.deep_view().take(i as int), audio_ext@)[j],
                    line_ext@,
                ),
        decreases n - i,
    {
        let p = &files[i];
        proof {
            assert(files.deep_view()[i as int] == files@[i as int]@);
            lemma_audio_list_take_step(files.deep_view(), audio_ext@, i as int);
        }
        if has_extension(p.as_str(), audio_ext) {
            let ghost old_r = r.deep_view();
            let t = with_extension(p.as_str(), line_ext);
            r.push(t);
            proof {
                assert(r.deep_view() =~= old_r.push(
                    with_extension_spec(files.deep_view()[i as int], line_ext@),
                ));
            }
        }
        i = i + 1;
    }
    proof {
        assert(files.deep_view().take(n as int) =~= files.deep_view());
    }
    r
}

/// The name of the output subdirectory.
pub open spec fn renamed_name() -> Seq<char> {
    seq!['r', 'e', 'n', 'a', 'm', 'e', 'd']
}

/// The planned destination for a label: `work_dir/renamed/<label>`, with the
/// audio extension applied.
pub open spec fn dest_spec(work_dir: Seq<char>, label_text: Seq<char>, audio_ext: Seq<char>) -> Seq<
    char,
> {
    with_extension_spec(join_spec(join_spec(work_dir, renamed_name()), label_text), audio_ext)
}

/// What construction promises of one entry: its audio path is the matching
/// audio file, its label follows the transcript policy with the placeholder
/// counter at `k`, and its destination is planned from that label.
pub open spec fn entry_spec(
    e: PathSet,
    audio: Seq<char>,
    content: Option<Seq<char>>,
    k: nat,
    work_dir: Seq<char>,
    audio_ext: Seq<char>,
) -> bool {
    &&& e.audio_path@ == audio
    &&& e.line@ == label_spec(content, k)
    &&& e.planned_destination matches PlanState::Planned(d)
    &&& d@ == dest_spec(work_dir, label_spec(content, k), audio_ext)
}

/// The pair the preview reports for one entry: the audio file's name, and
/// the planned file's name or `None` where no move is planned.
pub open spec fn check_pair_spec(p: (Option<String>, Option<String>), e: PathSet) -> bool {
    &&& p.0 is Some
    &&& p.0.unwrap()@ == file_name_spec(e.audio_path@)
    &&& (match e.planned_destination {
        PlanState::Planned(d) => p.1 is Some && p.1.unwrap()@ == file_name_spec(d@),
        PlanState::Unplanned => p.1 is None,
        PlanState::Failed => p.1 is None,
    })
}

/// The move reported for one entry: source and destination where a
/// destination is planned, `None` otherwise.
pub open spec fn rename_move_spec(m: Option<(String, String)>, e: PathSet) -> bool {
    match e.planned_destination {
        PlanState::Planned(d) => m is Some && m.unwrap().0@ == e.audio_path@ && m.unwrap().1@
            == d@,
        PlanState::Unplanned => m is None,
        PlanState::Failed => m is None,
    }
}

/// The state an entry's plan ends in once its move outcome is known: a
/// planned entry whose move failed loses its plan for good.
pub open spec fn applied_plan(p0: PlanState, ok: bool) -> PlanState {
    if p0 is Planned && !ok {
        PlanState::Failed
    } else {
        p0
    }
}

/// Each transcription line treated as present transcript content.
pub open spec fn somes_of(s: Seq<Seq<char>>) -> Seq<Option<Seq<char>>> {
    Seq::new(s.len(), |i: int| Some(s[i]))
}

/// Within one batch, two entries that both fell back to the placeholder
/// carry different labels: the counter moves strictly between them, and
/// distinct counters give distinct placeholder texts.
pub proof fn lemma_entry_placeholders_distinct(
    e1: PathSet,
    e2: PathSet,
    audios: Seq<Seq<char>>,
    contents: Seq<Option<Seq<char>>>,
    i: int,
    j: int,
    work_dir: Seq<char>,
    audio_ext: Seq<char>,
)
    requires
        0 <= i < j < contents.len(),
        entry_spec(e1, audios[i], contents[i], blank_count(contents.take(i)), work_dir, audio_ext),
        entry_spec(e2, audios[j], contents[j], blank_count(contents.take(j)), work_dir, audio_ext),
        crate::label::is_blank_spec(contents[i]),
        crate::label::is_blank_spec(contents[j]),
    ensures
        e1.line@ != e2.line@,
{
    crate::label::lemma_placeholder_order(contents, i, j);
}

impl PlanState {
    /// Whether a destination is currently planned.
    pub fn is_planned(&self) -> (r: bool)
        ensures
            r == (self is Planned),
    {
        match self {
            PlanState::Planned(_) => true,
            PlanState::Unplanned => false,
            PlanState::Failed => false,
        }
    }
}

/// The preview: per entry, the original file name and the planned one.
pub struct ListForCheck(pub Vec<(Option<String>, Option<String>)>);

/// The `None` sentinel shown where a name is absent.
pub open spec fn none_text() -> Seq<char> {
    seq!['N', 'o', 'n', 'e']
}

/// `n` spaces.
pub open spec fn spaces(n: nat) -> Seq<char>
    decreases n,
{
    if n == 0 {
        Seq::empty()
    } else {
        spaces((n - 1) as nat).push(' ')
    }
}

/// A name column padded with spaces to at least 20 characters.
pub open spec fn pad20(s: Seq<char>) -> Seq<char> {
    if s.len() >= 20 {
        s
    } else {
        s + spaces((20 - s.len()) as nat)
    }
}

/// The shown text of an optional name.
pub open spec fn opt_text(o: Option<String>) -> Seq<char> {
    match o {
        Option::None => none_text(),
        Option::Some(s) => s@,
    }
}

/// One preview line: `* `, the original name clipped to 20 characters and
/// padded to 20 columns, ` ---> `, and the planned name (or `None`).
pub open spec fn check_line_spec(p: (Option<String>, Option<String>)) -> Seq<char> {
    seq!['*', ' '] + pad20(clip20(opt_text(p.0))) + seq![' ', '-', '-', '-', '>', ' '] + opt_text(
        p.1,
    ) + seq!['\n']
}

/// The whole preview text, one line per entry.
pub open spec fn render_spec(pairs: Seq<(Option<String>, Option<String>)>) -> Seq<char>
    decreases pairs.len(),
{
    if pairs.len() == 0 {
        Seq::empty()
    } else {
        render_spec(pairs.drop_last()) + check_line_spec(pairs.last())
    }
}

/// The `None` sentinel as a string.
fn none_string() -> (r: String)
    ensures
        r@ == none_text(),
{
    let r = "None".to_owned();
    proof {
        reveal_strlit("None");
        assert(r@ =~= none_text());
    }
    r
}

/// One rendered preview line.
fn check_line(p: &(Option<String>, Option<String>)) -> (r: String)
    ensures
        r@ == check_line_spec(*p),
{
    let mut out: String = "* ".to_owned();
    proof {
        reveal_strlit("* ");
        assert(out@ =~= seq!['*', ' ']);
    }
    let old_text: String = match &p.0 {
        Option::Some(s) => s.clone(),
        Option::None => none_string(),
    };
    let ol = old_text.as_str().unicode_len();
    let m: usize = if ol <= 20 {
        ol
    } else {
        20
    };
    let clipped: &str = old_text.as_str().substring_char(0, m);
    proof {
        assert(clipped@ =~= clip20(opt_text(p.0)));
    }
    out.append(clipped);
    let ghost head = seq!['*', ' '] + clip20(opt_text(p.0));
    let mut k: usize = m;
    proof {
        assert(out@ =~= head + spaces(0));
    }
    while k < 20
        invariant
            m <= k,
            m <= 20 ==> k <= 20,
            m > 20 ==> k == m,
            out@ == head + spaces((k - m) as nat),
        decreases 20 - k,
    {
        out.append(" ");
        proof {
            reveal_strlit(" ");
            assert(" "@ =~= seq![' ']);
            assert(out@ =~= head + spaces((k + 1 - m) as nat));
        }
        k = k + 1;
    }
    proof {
        assert(clip20(opt_text(p.0)).len() == m);
        if m < 20 {
            assert(k == 20);
            assert(pad20(clip20(opt_text(p.0))) =~= clip20(opt_text(p.0)) + spaces(
                (20 - m) as nat,
            ));
        } else {
            assert(k == m);
            assert(spaces(0) =~= Seq::<char>::empty());
        }
        assert(out@ =~= seq!['*', ' '] + pad20(clip20(opt_text(p.0))));
    }
    out.append(" ---> ");
    let new_text: String = match &p.1 {
        Option::Some(s) => s.clone(),
        Option::None => none_string(),
    };
    out.append(new_text.as_str());
    out.append("\n");
    proof {
        reveal_strlit(" ---> ");
        reveal_strlit("\n");
        assert(" ---> "@ =~= seq![' ', '-', '-', '-', '>', ' ']);
        assert("\n"@ =~= seq!['\n']);
        assert(out@ =~= check_line_spec(*p));
    }
    out
}

impl ListForCheck {
    /// An empty preview list.
    pub fn new() -> (r: Self)
        ensures
            r.0@.len() == 0,
    {
        ListForCheck(Vec::new())
    }

    /// The preview rendered as text, one line per entry (the list's display
    /// form).
    pub fn render(&self) -> (r: String)
        ensures
            r@ == render_spec(self.0@),
    {
        let mut out = String::new();
        let n = self.0.len();
        let mut i: usize = 0;
        proof {
            assert(self.0@.take(0) =~= Seq::<(Option<String>, Option<String>)>::empty());
        }
        while i < n
            invariant
                i <= n,
                n == self.0@.len(),
                out@ == render_spec(self.0@.take(i as int)),
            decreases n - i,
        {
            let p = &self.0[i];
            let line_str = check_line(p);
            out.append(line_str.as_str());
            proof {
                assert(self.0@.take(i as int + 1).drop_last() =~= self.0@.take(i as int));
                assert(self.0@.take(i as int + 1).last() == self.0@[i as int]);
            }
            i = i + 1;
        }
        proof {
            assert(self.0@.take(n as int) =~= self.0@);
        }
        out
    }
}

/// The collection: the ordered entries of one batch, the working directory,
/// and the audio extension used for destinations.
pub struct PathSets {
    work_dir: String,
    list: Vec<PathSet>,
    audio_extension: String,
}

/// The matching/labeling core: one entry per audio file of the (already
/// filtered) listing, each labeled in scan order under the shared
/// placeholder counter, none planned yet. `contents[k]` belongs to the
/// `k`-th audio file.
fn build_path_sets(list: &Vec<String>, contents: &Vec<Option<String>>, audio_ext: &str) -> (r: Vec<
    PathSet,
>)
    requires
        contents@.len() == audio_list(list.deep_view(), audio_ext@).len(),
    ensures
        r@.len() == audio_list(list.deep_view(), audio_ext@).len(),
        forall|j: int|
            0 <= j < r@.len() ==> {
                let audios = audio_list(list.deep_view(), audio_ext@);
                &&& (#[trigger] r@[j]).audio_path@ == audios[j]
                &&& r@[j].line@ == label_spec(
                    contents.deep_view()[j],
                    blank_count(contents.deep_view().take(j)),
                )
                &&& r@[j].planned_destination is Unplanned
            },
{
    let n = list.len();
    let cn = contents.len();
    let mut tmp: Vec<PathSet> = Vec::new();
    let mut empty_count: usize = 0;
    let mut i: usize = 0;
    proof {
        assert(list.deep_view().take(0) =~= Seq::<Seq<char>>::empty());
        assert(contents.deep_view().take(0) =~= Seq::<Option<Seq<char>>>::empty());
    }
    while i < n
        invariant
            i <= n,
            n == list@.len(),
            list.deep_view().len() == n,
            contents@.len() == audio_list(list.deep_view(), audio_ext@).len(),
            contents.deep_view().len() == contents@.len(),
            cn == contents@.len(),
            tmp@.len() == audio_list(list.deep_view().take(i as int), audio_ext@).len(),
            empty_count <= tmp@.len(),
            empty_count == blank_count(contents.deep_view().take(tmp@.len() as int)),
            forall|j: int|
                0 <= j < tmp@.len() ==> {
                    let audios = audio_list(list.deep_view().take(i as int), audio_ext@);
                    &&& (#[trigger] tmp@[j]).audio_path@ == audios[j]
                    &&& tmp@[j].line@ == label_spec(
                        contents.deep_view()[j],
                        blank_count(contents.deep_view().take(j)),
                    )
                    &&& tmp@[j].planned_destination is Unplanned
                },
        decreases n - i,
    {
        let p = &list[i];
        proof {
            assert(list.deep_view()[i as int] == list@[i as int]@);
            lemma_audio_list_take_step(list.deep_view(), audio_ext@, i as int);
        }
        if has_extension(p.as_str(), audio_ext) {
            let idx = tmp.len();
            proof {
                lemma_audio_list_take_le(list.deep_view(), audio_ext@, i as int + 1);
            }
            let content_ref = &contents[idx];
            let derived = derive_label(content_ref, empty_count);
            let entry = PathSet::new(p.clone(), derived.0);
            tmp.push(entry);
            proof {
                lemma_blank_count_take_step(contents.deep_view(), idx as int);
                assert(contents.deep_view()[idx as int] == contents@[idx as int].deep_view());
            }
            if derived.1 {
                proof {
                    assert(tmp@.len() == audio_list(
                        list.deep_view().take(i as int + 1),
                        audio_ext@,
                    ).len());
                    assert(tmp@.len() <= contents@.len());
                    assert(contents@.len() <= usize::MAX);
                }
                empty_count = empty_count + 1;
            }
        }
        i = i + 1;
    }
    proof {
        assert(list.deep_view().take(n as int) =~= list.deep_view());
    }
    tmp
}

impl PathSets {
    /// The working directory the batch was constructed over.
    pub closed spec fn spec_work_dir(&self) -> Seq<char> {
        self.work_dir@
    }

    /// The configured audio extension.
    pub closed spec fn spec_audio_extension(&self) -> Seq<char> {
        self.audio_extension@
    }

    /// The entries, in scan order.
    pub closed spec fn entries(&self) -> Seq<PathSet> {
        self.list@
    }

    /// Every entry's label is usable: non-empty, with no surrounding white
    /// space.
    pub open spec fn wf(&self) -> bool {
        forall|i: int|
            0 <= i < self.entries().len() ==> label_wf((#[trigger] self.entries()[i]).line@)
    }

    /// Fill in every entry's planned destination from its label (the
    /// planning phase; every entry is planned unconditionally).
    fn ready_rename(&mut self)
        ensures
            final(self).work_dir == old(self).work_dir,
            final(self).audio_extension == old(self).audio_extension,
            final(self).list@.len() == old(self).list@.len(),
            forall|j: int|
                0 <= j < old(self).list@.len() ==> {
                    let e0 = old(self).list@[j];
                    let e1 = #[trigger] final(self).list@[j];
                    &&& e1.audio_path == e0.audio_path
                    &&& e1.line == e0.line
                    &&& e1.planned_destination matches PlanState::Planned(d) && d@ == dest_spec(
                        old(self).work_dir@,
                        e0.line@,
                        old(self).audio_extension@,
                    )
                },
    {
        let base = join(self.work_dir.as_str(), "renamed");
        proof {
            reveal_strlit("renamed");
            assert("renamed"@ =~= renamed_name());
        }
        let n = self.list.len();
        let mut i: usize = 0;
        while i < n
            invariant
                i <= n,
                n == self.list@.len(),
                self.work_dir == old(self).work_dir,
                self.audio_extension == old(self).audio_extension,
                base@ == join_spec(old(self).work_dir@, renamed_name()),
                forall|j: int| i <= j < n ==> #[trigger] self.list@[j] == old(self).list@[j],
                forall|j: int|
                    0 <= j < i ==> {
                        let e0 = old(self).list@[j];
                        let e1 = #[trigger] self.list@[j];
                        &&& e1.audio_path == e0.audio_path
                        &&& e1.line == e0.line
                        &&& e1.planned_destination matches PlanState::Planned(d) && d@
                            == dest_spec(
                            old(self).work_dir@,
                            e0.line@,
                            old(self).audio_extension@,
                        )
                    },
            decreases n - i,
        {
            let audio_path = self.list[i].audio_path.clone();
            let line = self.list[i].line.clone();
            let dest = with_extension(
                join(base.as_str(), line.as_str()).as_str(),
                self.audio_extension.as_str(),
            );
            let entry = PathSet { audio_path, line, planned_destination: PlanState::Planned(dest) };
            self.list.set(i, entry);
            i = i + 1;
        }
    }

    /// Build the full in-memory plan for one batch: keep the listing's audio
    /// files in scan order, derive each one's label from the given
    /// transcript contents, and plan every destination. `files` is `dir`'s
    /// listing; `contents[k]` is the text of the transcript belonging to the
    /// `k`-th audio file, or `None` where that file does not exist. Fails
    /// exactly when one of the extensions is unusable.
    pub fn new(
        dir: String,
        audio_extension: String,
        line_extension: String,
        files: Vec<String>,
        contents: Vec<Option<String>>,
    ) -> (r: Result<PathSets, Error>)
        requires
            contents@.len() == audio_list(files.deep_view(), audio_extension@).len(),
        ensures
            (r is Err) == !(ext_wf(audio_extension@) && ext_wf(line_extension@)),
            (match r {
                Result::Ok(ps) => ({
                    let audios = audio_list(files.deep_view(), audio_extension@);
                    &&& ps.wf()
                    &&& ps.spec_work_dir() == dir@
                    &&& ps.spec_audio_extension() == audio_extension@
                    &&& ps.entries().len() == audios.len()
                    &&& forall|i: int|
                        0 <= i < audios.len() ==> entry_spec(
                            #[trigger] ps.entries()[i],
                            audios[i],
                            contents.deep_view()[i],
                            blank_count(contents.deep_view().take(i)),
                            dir@,
                            audio_extension@,
                        )
                }),
                Result::Err(e) => e == Error::ExtensionError,
            }),
    {
        if !check_ext(audio_extension.as_str()) || !check_ext(line_extension.as_str()) {
            return Err(Error::ExtensionError);
        }
        let filtered = get_file_list(&files, audio_extension.as_str(), line_extension.as_str());
        proof {
            lemma_audio_of_scan(files.deep_view(), audio_extension@, line_extension@);
        }
        let list = build_path_sets(&filtered, &contents, audio_extension.as_str());
        let mut sets = PathSets { work_dir: dir, list, audio_extension };
        sets.ready_rename();
        proof {
            let audios = audio_list(files.deep_view(), sets.audio_extension@);
            assert forall|i: int| 0 <= i < audios.len() implies entry_spec(
                #[trigger] sets.entries()[i],
                audios[i],
                contents.deep_view()[i],
                blank_count(contents.deep_view().take(i)),
                sets.work_dir@,
                sets.audio_extension@,
            ) by {
                lemma_label_wf(contents.deep_view()[i], blank_count(contents.deep_view().take(i)));
            }
            assert forall|i: int| 0 <= i < sets.entries().len() implies label_wf(
                (#[trigger] sets.entries()[i]).line@,
            ) by {
                lemma_label_wf(contents.deep_view()[i], blank_count(contents.deep_view().take(i)));
            }
        }
        Ok(sets)
    }

    /// The transcription-driven constructor: the recognized text for each
    /// audio file (in scan order) stands in for its transcript's content,
    /// and labels and plans follow the same policy. The recognizer itself
    /// lives outside this library; its output arrives here as plain text.
    pub fn new_transcription(
        dir: String,
        audio_extension: String,
        line_extension: String,
        files: Vec<String>,
        lines: Vec<String>,
    ) -> (r: Result<PathSets, Error>)
        requires
            lines@.len() == audio_list(files.deep_view(), audio_extension@).len(),
        ensures
            (r is Err) == !(ext_wf(audio_extension@) && ext_wf(line_extension@)),
            (match r {
                Result::Ok(ps) => ({
                    let audios = audio_list(files.deep_view(), audio_extension@);
                    let contents = somes_of(lines.deep_view());
                    &&& ps.wf()
                    &&& ps.spec_work_dir() == dir@
                    &&& ps.spec_audio_extension() == audio_extension@
                    &&& ps.entries().len() == audios.len()
                    &&& forall|i: int|
                        0 <= i < audios.len() ==> entry_spec(
                            #[trigger] ps.entries()[i],
                            audios[i],
                            contents[i],
                            blank_count(contents.take(i)),
                            dir@,
                            audio_extension@,
                        )
                }),
                Result::Err(e) => e == Error::ExtensionError,
            }),
    {
        let n = lines.len();
        let mut contents: Vec<Option<String>> = Vec::new();
        let mut i: usize = 0;
        while i < n
            invariant
                i <= n,
                n == lines@.len(),
                contents@.len() == i,
                forall|j: int|
                    0 <= j < i ==> (#[trigger] contents@[j]) is Some && contents@[j].unwrap()
                        == lines@[j],
            decreases n - i,
        {
            contents.push(Some(lines[i].clone()));
            i = i + 1;
        }
        proof {
            assert(contents.deep_view() =~~= somes_of(lines.deep_view()));
        }
        Self::new(dir, audio_extension, line_extension, files, contents)
    }

    /// The preview of the plan; it never fails.
    pub fn check(&self) -> (r: Result<ListForCheck, Error>)
        ensures
            r is Ok,
            (match r {
                Result::Ok(l) => l.0@.len() == self.entries().len() && forall|i: int|
                    0 <= i < l.0@.len() ==> check_pair_spec(#[trigger] l.0@[i], self.entries()[i]),
                Result::Err(_) => false,
            }),
    {
        let mut tmp = ListForCheck::new();
        let n = self.list.len();
        let mut i: usize = 0;
        while i < n
            invariant
                i <= n,
                n == self.list@.len(),
                tmp.0@.len() == i,
                forall|j: int|
                    0 <= j < i ==> check_pair_spec(#[trigger] tmp.0@[j], self.list@[j]),
            decreases n - i,
        {
            let e = &self.list[i];
            let old_name = Some(file_name_of(e.audio_path.as_str()));
            let new_name: Option<String> = match &e.planned_destination {
                PlanState::Planned(d) => Some(file_name_of(d.as_str())),
                PlanState::Unplanned => None,
                PlanState::Failed => None,
            };
            tmp.0.push((old_name, new_name));
            i = i + 1;
        }
        Ok(tmp)
    }

    /// The collection's display text: every entry's text in order.
    pub fn describe(&self) -> (r: String)
        ensures
            r@ == path_sets_text(self.entries()),
    {
        let mut out = String::new();
        let n = self.list.len();
        let mut i: usize = 0;
        proof {
            assert(self.list@.take(0) =~= Seq::<PathSet>::empty());
        }
        while i < n
            invariant
                i <= n,
                n == self.list@.len(),
                out@ == path_sets_text(self.list@.take(i as int)),
            decreases n - i,
        {
            let e = &self.list[i];
            let text = e.describe();
            out.append(text.as_str());
            out.append("\n");
            proof {
                assert(self.list@.take(i as int + 1).drop_last() =~= self.list@.take(i as int));
                assert(self.list@.take(i as int + 1).last() == self.list@[i as int]);
            }
            i = i + 1;
        }
        proof {
            assert(self.list@.take(n as int) =~= self.list@);
        }
        out
    }

    /// The path of the output subdirectory that executing the plan creates.
    pub fn renamed_dir(&self) -> (r: String)
        ensures
            r@ == join_spec(self.spec_work_dir(), renamed_name()),
    {
        let r = join(self.work_dir.as_str(), "renamed");
        proof {
            reveal_strlit("renamed");
            assert("renamed"@ =~= renamed_name());
        }
        r
    }

    /// The planned moves, entry by entry: the source and destination paths
    /// where a destination is planned, `None` for the others.
    pub fn rename_moves(&self) -> (r: Vec<Option<(String, String)>>)
        ensures
            r@.len() == self.entries().len(),
            forall|i: int|
                0 <= i < r@.len() ==> rename_move_spec(#[trigger] r@[i], self.entries()[i]),
    {
        let n = self.list.len();
        let mut r: Vec<Option<(String, String)>> = Vec::new();
        let mut i: usize = 0;
        while i < n
            invariant
                i <= n,
                n == self.list@.len(),
                r@.len() == i,
                forall|j: int| 0 <= j < i ==> rename_move_spec(#[trigger] r@[j], self.list@[j]),
            decreases n - i,
        {
            let e = &self.list[i];
            let mv: Option<(String, String)> = match &e.planned_destination {
                PlanState::Planned(d) => Some((e.audio_path.clone(), d.clone())),
                PlanState::Unplanned => None,
                PlanState::Failed => None,
            };
            r.push(mv);
            i = i + 1;
        }
        r
    }

    /// Record the per-entry outcomes of executing the plan: a planned entry
    /// whose move failed (`moved[i]` false) has its plan cleared, and
    /// nothing else changes. A cleared plan is never reset.
    pub fn apply_rename_results(&mut self, moved: &Vec<bool>)
        requires
            moved@.len() == old(self).entries().len(),
        ensures
            final(self).spec_work_dir() == old(self).spec_work_dir(),
            final(self).spec_audio_extension() == old(self).spec_audio_extension(),
            final(self).entries().len() == old(self).entries().len(),
            forall|i: int|
                0 <= i < old(self).entries().len() ==> {
                    let e0 = old(self).entries()[i];
                    let e1 = #[trigger] final(self).entries()[i];
                    &&& e1.audio_path == e0.audio_path
                    &&& e1.line == e0.line
                    &&& e1.planned_destination == applied_plan(e0.planned_destination, moved@[i])
                },
            old(self).wf() ==> final(self).wf(),
    {
        let n = self.list.len();
        let mut i: usize = 0;
        while i < n
            invariant
                i <= n,
                n == self.list@.len(),
                n == old(self).list@.len(),
                moved@.len() == n,
                self.work_dir == old(self).work_dir,
                self.audio_extension == old(self).audio_extension,
                forall|j: int| i <= j < n ==> #[trigger] self.list@[j] == old(self).list@[j],
                forall|j: int|
                    0 <= j < i ==> {
                        let e0 = old(self).list@[j];
                        let e1 = #[trigger] self.list@[j];
                        &&& e1.audio_path == e0.audio_path
                        &&& e1.line == e0.line
                        &&& e1.planned_destination == applied_plan(
                            e0.planned_destination,
                            moved@[j],
                        )
                    },
            decreases n - i,
        {
            let e = &self.list[i];
            let is_p = e.planned_destination.is_planned();
            let mv = moved[i];
            if is_p && !mv {
                let entry = PathSet {
                    audio_path: e.audio_path.clone(),
                    line: e.line.clone(),
                    planned_destination: PlanState::Failed,
                };
                self.list.set(i, entry);
            }
            i = i + 1;
        }
        proof {
            if old(self).wf() {
                assert forall|i: int| 0 <= i < self.entries().len() implies label_wf(
                    (#[trigger] self.entries()[i]).line@,
                ) by {
                    assert(self.list@[i].line == old(self).list@[i].line);
                }
            }
        }
    }
}

} // verus!
