//! Packing selected project files into the message sent to an agent.
//!
//! The runtime reads at most `MAX_CONTEXT_FILES` files, at most
//! `MAX_CONTEXT_BYTES_PER_FILE` bytes of each and `MAX_CONTEXT_BYTES_TOTAL`
//! bytes in all, and only files below the project root.
//!
//! Reading the disk is left to the caller: a `ContextPacker` hands out the
//! selected paths one at a time, is told where each one leads and what reading
//! it gave, and decides what goes into the pack.
use vstd::prelude::*;
use vstd::utf8::{valid_utf8, decode_utf8};
use crate::text::{is_blank, is_blank_str, trim, trim_seq, join, join_seq, views, cat, owned};
use crate::paths::{path_within, path_starts_with, relative_path, relative_seq};

verus! {

pub const MAX_CONTEXT_FILES: usize = 12;

pub const MAX_CONTEXT_BYTES_PER_FILE: usize = 24 * 1024;

pub const MAX_CONTEXT_BYTES_TOTAL: usize = 96 * 1024;

/// What `String::from_utf8_lossy` makes of the bytes.
pub uninterp spec fn utf8_lossy(bytes: Seq<u8>) -> Seq<char>;

/// Calls `String::from_utf8_lossy`; the result is named `utf8_lossy`. As its
/// documentation says, valid UTF-8 is decoded as it stands.
#[verifier::external_body]
pub(crate) fn decode_lossy(bytes: &[u8]) -> (s: String)
    ensures
        s@ == utf8_lossy(bytes@),
        valid_utf8(bytes@) ==> s@ == decode_utf8(bytes@),
{
    String::from_utf8_lossy(bytes).into_owned()
}

/// What reading a selected path gave.
pub enum FileProbe {
    /// The path does not name a regular file.
    NotAFile,
    /// The file's bytes.
    Read(Vec<u8>),
    /// Reading failed, with the error's text.
    Failed(String),
}

/// What reading a selected path gave, as the pack sees it.
pub ghost enum ProbeView {
    NotAFile,
    Read(Seq<u8>),
    Failed(Seq<char>),
}

impl View for FileProbe {
    type V = ProbeView;

    open spec fn view(&self) -> ProbeView {
        match self {
            FileProbe::NotAFile => ProbeView::NotAFile,
            FileProbe::Read(bytes) => ProbeView::Read(bytes@),
            FileProbe::Failed(error) => ProbeView::Failed(error@),
        }
    }
}

/// The paths from position `i` on that are not blank, in order.
pub open spec fn nonblank_from(paths: Seq<Seq<char>>, i: int) -> Seq<Seq<char>>
    decreases paths.len() - i,
{
    if i < 0 || i >= paths.len() {
        Seq::empty()
    } else if is_blank(paths[i]) {
        nonblank_from(paths, i + 1)
    } else {
        seq![paths[i]] + nonblank_from(paths, i + 1)
    }
}

/// Position of the first path at or after `i` that is not blank.
pub open spec fn first_nonblank(paths: Seq<Seq<char>>, i: int) -> Option<int>
    decreases paths.len() - i,
{
    if i < 0 || i >= paths.len() {
        None
    } else if is_blank(paths[i]) {
        first_nonblank(paths, i + 1)
    } else {
        Some(i)
    }
}

/// The first part of every pack.
pub open spec fn limits_line() -> Seq<char> {
    "Context limits: max 12 files, 24576 bytes per file, 98304 bytes total."@
}

pub open spec fn outside_root_line(raw: Seq<char>) -> Seq<char> {
    "Skipped `"@ + raw + "`: outside project root."@
}

pub open spec fn not_a_file_line(rel: Seq<char>) -> Seq<char> {
    "Skipped `"@ + rel + "`: not a readable file."@
}

pub open spec fn failed_line(rel: Seq<char>, error: Seq<char>) -> Seq<char> {
    "Skipped `"@ + rel + "`: "@ + error + "."@
}

pub open spec fn nothing_packed_line() -> Seq<char> {
    "No selected context files could be packed."@
}

pub open spec fn truncated_note(truncated: bool) -> Seq<char> {
    if truncated {
        "_Truncated by context budget._"@
    } else {
        ""@
    }
}

/// The section of the pack that holds one file.
pub open spec fn file_section(rel: Seq<char>, truncated: bool, body: Seq<char>) -> Seq<char> {
    "## File: `"@ + rel + "`\n"@ + truncated_note(truncated) + "\n```\n"@ + body + "\n```"@
}

pub open spec fn min_nat(a: nat, b: nat) -> nat {
    if a <= b {
        a
    } else {
        b
    }
}

/// How many more bytes the next file may add.
pub open spec fn file_budget(used_total: nat) -> nat {
    min_nat(MAX_CONTEXT_BYTES_PER_FILE as nat, (MAX_CONTEXT_BYTES_TOTAL - used_total) as nat)
}

/// Law: while the pack accepts files, the next file may add at least one byte
/// and at most `MAX_CONTEXT_BYTES_PER_FILE`, and whatever it adds keeps the
/// pack within `MAX_CONTEXT_BYTES_TOTAL`.
pub proof fn lemma_file_budget(used_total: nat, file_len: nat)
    requires
        used_total < MAX_CONTEXT_BYTES_TOTAL,
    ensures
        0 < file_budget(used_total) <= MAX_CONTEXT_BYTES_PER_FILE,
        used_total + min_nat(file_len, file_budget(used_total)) <= MAX_CONTEXT_BYTES_TOTAL,
{
}

/// The state of a pack in progress.
pub ghost struct PackerState {
    pub root: Seq<char>,
    pub paths: Seq<Seq<char>>,
    /// Index of the next selected path to consider.
    pub next: int,
    /// The selected path handed out last, not yet dealt with.
    pub pending: Option<Seq<char>>,
    /// Where the pending path leads, once it is known to lie below the root.
    pub located: Option<Seq<char>>,
    pub parts: Seq<Seq<char>>,
    pub used_total: nat,
    pub packed: nat,
}

impl PackerState {
    /// More files may still be packed.
    pub open spec fn accepting(self) -> bool {
        self.packed < MAX_CONTEXT_FILES && self.used_total < MAX_CONTEXT_BYTES_TOTAL
    }

    /// The pack as text, once every path has been dealt with.
    pub open spec fn rendered(self) -> Seq<char> {
        if self.packed == 0 {
            join_seq(self.parts.push(nothing_packed_line()), "\n\n"@)
        } else {
            join_seq(self.parts, "\n\n"@)
        }
    }

    /// A fresh pack of the files at `paths` below `root`.
    pub open spec fn start(root: Seq<char>, paths: Seq<Seq<char>>) -> PackerState {
        PackerState {
            root,
            paths,
            next: 0,
            pending: None,
            located: None,
            parts: seq![limits_line()],
            used_total: 0,
            packed: 0,
        }
    }

    /// The pack after `next_path`: the next path that is not blank becomes
    /// the pending one, while more files may be packed.
    pub open spec fn after_next(self) -> PackerState {
        let cleared = PackerState { pending: None, located: None, ..self };
        if !self.accepting() {
            cleared
        } else {
            match first_nonblank(self.paths, self.next) {
                Some(k) => PackerState { next: k + 1, pending: Some(self.paths[k]), ..cleared },
                None => PackerState { next: self.paths.len() as int, ..cleared },
            }
        }
    }

    /// The pack after `locate(path)`.
    pub open spec fn after_locate(self, path: Seq<char>) -> PackerState {
        match self.pending {
            None => self,
            Some(raw) => if path_within(path, self.root) {
                PackerState { located: Some(path), ..self }
            } else {
                PackerState {
                    parts: self.parts.push(outside_root_line(raw)),
                    pending: None,
                    located: None,
                    ..self
                }
            },
        }
    }

    /// The pack after `record(probe)`.
    pub open spec fn after_record(self, probe: ProbeView) -> PackerState {
        match self.located {
            None => self,
            Some(path) => {
                let rel = relative_seq(self.root, path);
                let cleared = PackerState { pending: None, located: None, ..self };
                match probe {
                    ProbeView::NotAFile => PackerState { parts: self.parts.push(not_a_file_line(rel)), ..cleared },
                    ProbeView::Failed(error) => PackerState {
                        parts: self.parts.push(failed_line(rel, error)),
                        ..cleared
                    },
                    ProbeView::Read(bytes) => {
                        let limit = file_budget(self.used_total);
                        let take = min_nat(bytes.len(), limit);
                        PackerState {
                            parts: self.parts.push(
                                file_section(rel, bytes.len() > limit, utf8_lossy(bytes.subrange(0, take as int))),
                            ),
                            used_total: self.used_total + take,
                            packed: self.packed + 1,
                            ..cleared
                        }
                    },
                }
            },
        }
    }
}

/// Two packs that agree but for blank selected paths: the same paths that are
/// not blank lie ahead of each, and all else is the same.
pub open spec fn agree_but_blanks(a: PackerState, b: PackerState) -> bool {
    &&& nonblank_from(a.paths, a.next) == nonblank_from(b.paths, b.next)
    &&& a.root == b.root
    &&& a.pending == b.pending
    &&& a.located == b.located
    &&& a.parts == b.parts
    &&& a.used_total == b.used_total
    &&& a.packed == b.packed
}

proof fn lemma_nonblank_split(paths: Seq<Seq<char>>, i: int)
    requires
        0 <= i,
    ensures
        match first_nonblank(paths, i) {
            Some(k) => i <= k < paths.len() && !is_blank(paths[k]) && nonblank_from(paths, i) == seq![paths[k]]
                + nonblank_from(paths, k + 1),
            None => nonblank_from(paths, i) == Seq::<Seq<char>>::empty(),
        },
    decreases paths.len() - i,
{
    if i < paths.len() && is_blank(paths[i]) {
        lemma_nonblank_split(paths, i + 1);
    }
}

proof fn lemma_first_nonblank_at(paths: Seq<Seq<char>>, i: int, j: int)
    requires
        0 <= i <= j <= paths.len(),
        forall|k: int| i <= k < j ==> is_blank(#[trigger] paths[k]),
        j == paths.len() || !is_blank(paths[j]),
    ensures
        first_nonblank(paths, i) == (if j == paths.len() {
            None
        } else {
            Some(j)
        }),
    decreases j - i,
{
    if i < j {
        lemma_first_nonblank_at(paths, i + 1, j);
    }
}

proof fn lemma_nonblank_idempotent(paths: Seq<Seq<char>>, i: int)
    requires
        0 <= i,
    ensures
        nonblank_from(nonblank_from(paths, i), 0) == nonblank_from(paths, i),
    decreases paths.len() - i,
{
    if 0 <= i < paths.len() {
        lemma_nonblank_idempotent(paths, i + 1);
        let rest = nonblank_from(paths, i + 1);
        if !is_blank(paths[i]) {
            let all = seq![paths[i]] + rest;
            lemma_nonblank_shift(all, rest, paths[i]);
        }
    }
}

proof fn lemma_nonblank_shift(all: Seq<Seq<char>>, rest: Seq<Seq<char>>, x: Seq<char>)
    requires
        all == seq![x] + rest,
        !is_blank(x),
    ensures
        nonblank_from(all, 0) == seq![x] + nonblank_from(rest, 0),
{
    assert(all[0] == x);
    lemma_nonblank_offset(all, rest, 0);
}

proof fn lemma_nonblank_offset(all: Seq<Seq<char>>, rest: Seq<Seq<char>>, j: int)
    requires
        all.len() == rest.len() + 1,
        forall|k: int| 0 <= k < rest.len() ==> #[trigger] rest[k] == all[k + 1],
        0 <= j,
    ensures
        nonblank_from(all, j + 1) == nonblank_from(rest, j),
    decreases rest.len() - j,
{
    if j < rest.len() {
        lemma_nonblank_offset(all, rest, j + 1);
        assert(all[j + 1] == rest[j]);
    }
}

/// Law: reading a file only up to one byte past the budget records the same
/// as reading all of it.
pub proof fn lemma_prefix_read_suffices(s: PackerState, bytes: Seq<u8>, n: nat)
    requires
        n > file_budget(s.used_total),
    ensures
        s.after_record(ProbeView::Read(bytes)) == s.after_record(
            ProbeView::Read(bytes.take(min_nat(bytes.len(), n) as int)),
        ),
{
    let short = bytes.take(min_nat(bytes.len(), n) as int);
    let limit = file_budget(s.used_total);
    let take = min_nat(bytes.len(), limit);
    assert(short.subrange(0, take as int) =~= bytes.subrange(0, take as int));
}

/// Law: blank selected paths change nothing. A fresh pack agrees with the
/// pack of its paths that are not blank; packs that agree hand out the same
/// next path and keep agreeing through every step; and they render the same
/// text. The message built from them is the same when both or neither have
/// selected paths.
pub proof fn lemma_blank_paths_change_nothing(
    a: PackerState,
    b: PackerState,
    path: Seq<char>,
    probe: ProbeView,
    content: Seq<char>,
)
    requires
        agree_but_blanks(a, b),
        0 <= a.next <= a.paths.len(),
        0 <= b.next <= b.paths.len(),
    ensures
        agree_but_blanks(
            PackerState::start(a.root, a.paths),
            PackerState::start(a.root, nonblank_from(a.paths, 0)),
        ),
        agree_but_blanks(a.after_next(), b.after_next()),
        a.after_next().pending == b.after_next().pending,
        agree_but_blanks(a.after_locate(path), b.after_locate(path)),
        agree_but_blanks(a.after_record(probe), b.after_record(probe)),
        a.rendered() == b.rendered(),
        (a.paths.len() == 0) == (b.paths.len() == 0) ==> packed_message(content, a) == packed_message(content, b),
{
    lemma_nonblank_idempotent(a.paths, 0);
    lemma_nonblank_split(a.paths, a.next);
    lemma_nonblank_split(b.paths, b.next);
    if a.accepting() {
        match (first_nonblank(a.paths, a.next), first_nonblank(b.paths, b.next)) {
            (Some(ka), Some(kb)) => {
                let sa = nonblank_from(a.paths, a.next);
                assert(sa[0] == a.paths[ka]);
                assert(sa[0] == b.paths[kb]);
                assert(nonblank_from(a.paths, ka + 1) =~= sa.skip(1));
                assert(nonblank_from(b.paths, kb + 1) =~= sa.skip(1));
            },
            (Some(ka), None) => {
                assert(nonblank_from(a.paths, a.next).len() > 0);
            },
            (None, Some(kb)) => {
                assert(nonblank_from(b.paths, b.next).len() > 0);
            },
            (None, None) => {
                assert(nonblank_from(a.paths, a.paths.len() as int) =~= Seq::<Seq<char>>::empty());
                assert(nonblank_from(b.paths, b.paths.len() as int) =~= Seq::<Seq<char>>::empty());
            },
        }
    }
}

/// A pack of selected project files in progress.
pub struct ContextPacker {
    root: String,
    paths: Vec<String>,
    next: usize,
    pending: Option<String>,
    located: Option<String>,
    parts: Vec<String>,
    used_total: usize,
    packed: usize,
}

pub open spec fn opt_view(o: Option<String>) -> Option<Seq<char>> {
    match o {
        Some(s) => Some(s@),
        None => None,
    }
}

impl View for ContextPacker {
    type V = PackerState;

    closed spec fn view(&self) -> PackerState {
        PackerState {
            root: self.root@,
            paths: views(self.paths@),
            next: self.next as int,
            pending: opt_view(self.pending),
            located: opt_view(self.located),
            parts: views(self.parts@),
            used_total: self.used_total as nat,
            packed: self.packed as nat,
        }
    }
}

impl ContextPacker {
    /// The limits hold and the pack starts with the limits line.
    pub open spec fn wf(&self) -> bool {
        &&& self@.used_total <= MAX_CONTEXT_BYTES_TOTAL
        &&& self@.packed <= MAX_CONTEXT_FILES
        &&& 0 <= self@.next <= self@.paths.len()
        &&& self@.parts.len() >= 1
        &&& self@.parts[0] == limits_line()
        &&& self@.located is Some ==> self@.pending is Some
        &&& self@.pending is Some ==> self@.accepting()
    }

    /// Starts a pack of the files at `context_paths` below `root`.
    pub fn new(root: String, context_paths: Vec<String>) -> (p: Self)
        ensures
            p.wf(),
            p@ == PackerState::start(root@, views(context_paths@)),
            p@.root == root@,
            p@.paths == views(context_paths@),
            p@.next == 0,
            p@.pending is None,
            p@.located is None,
            p@.parts == seq![limits_line()],
            p@.used_total == 0,
            p@.packed == 0,
    {
        let mut parts: Vec<String> = Vec::new();
        parts.push(owned("Context limits: max 12 files, 24576 bytes per file, 98304 bytes total."));
        proof {
            assert(views(parts@) =~= seq![limits_line()]);
        }
        ContextPacker {
            root,
            paths: context_paths,
            next: 0,
            pending: None,
            located: None,
            parts,
            used_total: 0,
            packed: 0,
        }
    }

    /// Whether more files may still be packed.
    pub fn accepting(&self) -> (b: bool)
        ensures
            b == self@.accepting(),
    {
        self.packed < MAX_CONTEXT_FILES && self.used_total < MAX_CONTEXT_BYTES_TOTAL
    }

    /// How many bytes of the next file the pack can take. Reading one byte
    /// more is enough to tell whether the file is cut.
    pub fn budget(&self) -> (n: usize)
        requires
            self.wf(),
        ensures
            n == file_budget(self@.used_total),
    {
        let remaining = MAX_CONTEXT_BYTES_TOTAL - self.used_total;
        if MAX_CONTEXT_BYTES_PER_FILE <= remaining {
            MAX_CONTEXT_BYTES_PER_FILE
        } else {
            remaining
        }
    }

    /// Whether a path was selected at all.
    pub fn has_paths(&self) -> (b: bool)
        ensures
            b == (self@.paths.len() > 0),
    {
        self.paths.len() > 0
    }

    /// Hands out the next selected path that is not blank, while more files may
    /// be packed; `None` once there is none or the limits are reached. A path
    /// handed out before and not dealt with is dropped.
    pub fn next_path(&mut self) -> (r: Option<String>)
        requires
            old(self).wf(),
        ensures
            final(self).wf(),
            final(self)@ == old(self)@.after_next(),
            final(self)@.root == old(self)@.root,
            final(self)@.paths == old(self)@.paths,
            final(self)@.parts == old(self)@.parts,
            final(self)@.used_total == old(self)@.used_total,
            final(self)@.packed == old(self)@.packed,
            final(self)@.located is None,
            final(self)@.pending == opt_view(r),
            !old(self)@.accepting() ==> r is None && final(self)@.next == old(self)@.next,
            old(self)@.accepting() ==> match r {
                Some(raw) => {
                    &&& old(self)@.next < final(self)@.next <= old(self)@.paths.len()
                    &&& old(self)@.paths[final(self)@.next - 1] == raw@
                    &&& !is_blank(raw@)
                    &&& forall|k: int|
                        old(self)@.next <= k < final(self)@.next - 1 ==> is_blank(
                            #[trigger] old(self)@.paths[k],
                        )
                },
                None => {
                    &&& final(self)@.next == old(self)@.paths.len()
                    &&& forall|k: int|
                        old(self)@.next <= k < old(self)@.paths.len() ==> is_blank(
                            #[trigger] old(self)@.paths[k],
                        )
                },
            },
    {
        self.pending = None;
        self.located = None;
        if !self.accepting() {
            return None;
        }
        let ghost start = self.next;
        while self.next < self.paths.len()
            invariant
                start <= self.next <= self.paths.len(),
                start == old(self).next,
                self.wf(),
                self@.accepting(),
                self.pending is None,
                self.located is None,
                self.root == old(self).root,
                self.paths == old(self).paths,
                self.parts == old(self).parts,
                self.used_total == old(self).used_total,
                self.packed == old(self).packed,
                forall|k: int| start <= k < self.next ==> is_blank(#[trigger] views(self.paths@)[k]),
            decreases self.paths.len() - self.next,
        {
            let i = self.next;
            self.next = i + 1;
            if !is_blank_str(self.paths[i].as_str()) {
                let raw = self.paths[i].clone();
                self.pending = Some(raw.clone());
                assert(views(self.paths@)[i as int] == raw@);
                assert(forall|k: int| start <= k < i ==> is_blank(#[trigger] views(self.paths@)[k]));
                proof {
                    lemma_first_nonblank_at(views(self.paths@), start as int, i as int);
                }
                return Some(raw);
            }
        }
        proof {
            lemma_first_nonblank_at(views(self.paths@), start as int, self.next as int);
        }
        None
    }

    /// Tells the pack where the pending path leads. A path outside the root is
    /// noted as skipped, and `false` comes back: it is then dealt with. A path
    /// below the root is located: `true` comes back, and it waits for
    /// `record`. With no path pending nothing changes.
    pub fn locate(&mut self, path: &str) -> (located: bool)
        requires
            old(self).wf(),
        ensures
            final(self).wf(),
            final(self)@ == old(self)@.after_locate(path@),
            final(self)@.root == old(self)@.root,
            final(self)@.paths == old(self)@.paths,
            final(self)@.next == old(self)@.next,
            final(self)@.used_total == old(self)@.used_total,
            final(self)@.packed == old(self)@.packed,
            old(self)@.pending is None ==> !located && final(self)@ == old(self)@,
            old(self)@.pending matches Some(raw) ==> {
                &&& located == path_within(path@, old(self)@.root)
                &&& located ==> final(self)@.parts == old(self)@.parts
                    && final(self)@.pending == old(self)@.pending
                    && final(self)@.located == Some(path@)
                &&& !located ==> final(self)@.parts == old(self)@.parts.push(outside_root_line(raw))
                    && final(self)@.pending is None
                    && final(self)@.located is None
            },
    {
        match &self.pending {
            None => false,
            Some(raw) => {
                if path_starts_with(path, self.root.as_str()) {
                    self.located = Some(owned(path));
                    true
                } else {
                    let line = cat(cat("Skipped `", raw.as_str()).as_str(), "`: outside project root.");
                    proof {
                        assert(line@ =~= outside_root_line(raw@));
                    }
                    self.push_part(line);
                    self.pending = None;
                    self.located = None;
                    false
                }
            },
        }
    }

    fn push_part(&mut self, part: String)
        requires
            old(self).wf(),
        ensures
            final(self).root == old(self).root,
            final(self).paths == old(self).paths,
            final(self).next == old(self).next,
            final(self).pending == old(self).pending,
            final(self).located == old(self).located,
            final(self).used_total == old(self).used_total,
            final(self).packed == old(self).packed,
            final(self)@.parts == old(self)@.parts.push(part@),
            final(self).parts@.len() >= 1,
            final(self)@.parts[0] == limits_line(),
    {
        self.parts.push(part);
        proof {
            assert(views(self.parts@) =~= views(old(self).parts@).push(part@));
        }
    }

    /// Tells the pack what reading the located path gave. A file adds a section
    /// with as many of its first bytes as the budget allows, and a note when
    /// that is not all of them; anything else adds a line that says why the
    /// path was skipped. With no path located nothing changes.
    pub fn record(&mut self, probe: FileProbe)
        requires
            old(self).wf(),
        ensures
            final(self).wf(),
            final(self)@ == old(self)@.after_record(probe@),
            final(self)@.root == old(self)@.root,
            final(self)@.paths == old(self)@.paths,
            final(self)@.next == old(self)@.next,
            old(self)@.located is None ==> final(self)@ == old(self)@,
            old(self)@.located matches Some(path) ==> {
                let rel = relative_seq(old(self)@.root, path);
                let used = old(self)@.used_total;
                &&& final(self)@.pending is None
                &&& final(self)@.located is None
                &&& match probe {
                    FileProbe::NotAFile => {
                        &&& final(self)@.parts == old(self)@.parts.push(not_a_file_line(rel))
                        &&& final(self)@.used_total == used
                        &&& final(self)@.packed == old(self)@.packed
                    },
                    FileProbe::Failed(error) => {
                        &&& final(self)@.parts == old(self)@.parts.push(failed_line(rel, error@))
                        &&& final(self)@.used_total == used
                        &&& final(self)@.packed == old(self)@.packed
                    },
                    FileProbe::Read(bytes) => {
                        let limit = file_budget(used);
                        let take = min_nat(bytes@.len(), limit);
                        &&& limit > 0
                        &&& final(self)@.parts == old(self)@.parts.push(
                            file_section(
                                rel,
                                bytes@.len() > limit,
                                utf8_lossy(bytes@.subrange(0, take as int)),
                            ),
                        )
                        &&& final(self)@.used_total == used + take
                        &&& final(self)@.packed == old(self)@.packed + 1
                    },
                }
            },
    {
        let path = match &self.located {
            None => {
                return;
            },
            Some(p) => p.clone(),
        };
        let rel = relative_path(self.root.as_str(), path.as_str());
        match probe {
            FileProbe::NotAFile => {
                let line = cat(cat("Skipped `", rel.as_str()).as_str(), "`: not a readable file.");
                self.push_part(line);
            },
            FileProbe::Failed(error) => {
                let line = cat(cat(cat("Skipped `", rel.as_str()).as_str(), "`: ").as_str(), error.as_str());
                let line = cat(line.as_str(), ".");
                self.push_part(line);
            },
            FileProbe::Read(bytes) => {
                let remaining = MAX_CONTEXT_BYTES_TOTAL - self.used_total;
                let limit = if MAX_CONTEXT_BYTES_PER_FILE <= remaining {
                    MAX_CONTEXT_BYTES_PER_FILE
                } else {
                    remaining
                };
                let truncated = bytes.len() > limit;
                let take = if bytes.len() <= limit {
                    bytes.len()
                } else {
                    limit
                };
                let body = decode_lossy(vstd::slice::slice_subrange(bytes.as_slice(), 0, take));
                let head = cat(cat("## File: `", rel.as_str()).as_str(), "`\n");
                let note = if truncated {
                    owned("_Truncated by context budget._")
                } else {
                    owned("")
                };
                let line = cat(cat(cat(head.as_str(), note.as_str()).as_str(), "\n```\n").as_str(), body.as_str());
                let line = cat(line.as_str(), "\n```");
                proof {
                    assert(line@ =~= file_section(rel@, truncated, body@));
                }
                self.push_part(line);
                self.used_total = self.used_total + take;
                self.packed = self.packed + 1;
            },
        }
        self.pending = None;
        self.located = None;
    }

    /// The pack as text: its parts separated by blank lines, with a closing
    /// note when no file could be packed.
    pub fn finish(self) -> (r: String)
        requires
            self.wf(),
        ensures
            r@ == self@.rendered(),
    {
        let mut parts = self.parts;
        if self.packed == 0 {
            parts.push(owned("No selected context files could be packed."));
            proof {
                assert(views(parts@) =~= self@.parts.push(nothing_packed_line()));
            }
        }
        join(&parts, "\n\n")
    }
}

/// The words that open a message that carries a pack.
pub open spec fn context_preamble() -> Seq<char> {
    "You are given selected project context files below. Use this context as the primary source of truth before making changes or answering.\n\n"@
}

/// The message sent to the agent: the task alone when no file was selected,
/// else the pack followed by the task.
pub open spec fn packed_message(content: Seq<char>, pack: PackerState) -> Seq<char> {
    if pack.paths.len() == 0 {
        trim_seq(content)
    } else {
        context_preamble() + pack.rendered() + "\n\nUser task:\n"@ + trim_seq(content)
    }
}

/// Builds the message for the agent from the user's task and the pack of the
/// files selected with it.
pub fn pack_message_with_context(content: &str, pack: ContextPacker) -> (r: String)
    requires
        pack.wf(),
    ensures
        r@ == packed_message(content@, pack@),
{
    let task = trim(content);
    if !pack.has_paths() {
        return task;
    }
    let ghost state = pack@;
    let context = pack.finish();
    let intro = owned(
        "You are given selected project context files below. Use this context as the primary source of truth before making changes or answering.\n\n",
    );
    let with_context = cat(intro.as_str(), context.as_str());
    let with_label = cat(with_context.as_str(), "\n\nUser task:\n");
    cat(with_label.as_str(), task.as_str())
}

} // verus!
