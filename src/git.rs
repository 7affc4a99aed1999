//! Source-control data shared with the presentation layer, the pure parts
//! of reading a repository, and staging through libgit2.

use vstd::prelude::*;
use crate::text::{chars_of, opt_chars, opt_seq, strings_view, trim, trim_ws};

verus! {

pub struct FileStatus {
    pub path: String,
    pub status: String,
    pub staged: bool,
    pub is_binary: bool,
}

pub struct DiffLine {
    /// `add`, `del` or `context`.
    pub kind: String,
    pub content: String,
    pub old_ln: Option<u32>,
    pub new_ln: Option<u32>,
}

pub struct DiffHunk {
    pub header: String,
    pub lines: Vec<DiffLine>,
}

pub struct DiffResult {
    pub hunks: Vec<DiffHunk>,
}

pub struct CommitInfo {
    pub oid: String,
    pub message: String,
    pub author: String,
    pub timestamp: String,
}

pub struct CommitEntry {
    pub oid: String,
    pub short_oid: String,
    pub message: String,
    pub author: String,
    pub date: String,
    pub parents: Vec<String>,
    pub refs: Vec<String>,
}

pub struct BranchList {
    pub current: Option<String>,
    pub local: Vec<String>,
    pub remote: Vec<String>,
}

pub struct PushResult {
    pub ok: bool,
    pub detail: String,
}

pub struct PullResult {
    pub ok: bool,
    pub detail: String,
}

#[derive(PartialEq, Eq, Structural, Debug, Clone, Copy)]
pub enum StashAction {
    Push,
    Pop,
    Drop,
    List,
}

/// A stash action as the presentation layer names it.
#[derive(PartialEq, Eq, Structural, Debug, Clone, Copy)]
pub enum FrontendStashAction {
    Push,
    Pop,
    Drop,
    List,
}

impl From<FrontendStashAction> for StashAction {
    fn from(value: FrontendStashAction) -> (r: StashAction) {
        match value {
            FrontendStashAction::Push => StashAction::Push,
            FrontendStashAction::Pop => StashAction::Pop,
            FrontendStashAction::Drop => StashAction::Drop,
            FrontendStashAction::List => StashAction::List,
        }
    }
}

impl vstd::std_specs::convert::FromSpecImpl<FrontendStashAction> for StashAction {
    open spec fn obeys_from_spec() -> bool {
        true
    }

    open spec fn from_spec(value: FrontendStashAction) -> StashAction {
        match value {
            FrontendStashAction::Push => StashAction::Push,
            FrontendStashAction::Pop => StashAction::Pop,
            FrontendStashAction::Drop => StashAction::Drop,
            FrontendStashAction::List => StashAction::List,
        }
    }
}

pub struct StashEntry {
    pub index: usize,
    pub message: String,
    pub oid: String,
}

pub struct StashResult {
    pub action: StashAction,
    pub stashes: Vec<StashEntry>,
    pub detail: String,
}

/// The state of one file against the index and the working tree.
pub struct StatusFlags {
    pub index_new: bool,
    pub index_modified: bool,
    pub index_deleted: bool,
    pub index_renamed: bool,
    pub index_typechange: bool,
    pub wt_new: bool,
    pub wt_modified: bool,
    pub wt_deleted: bool,
    pub wt_renamed: bool,
}

/// The one-letter label a file is listed with; the first rule that applies
/// wins: untracked `?`, deleted `D`, renamed `R`, modified `M`, added `A`,
/// anything else `M`.
pub open spec fn status_label(s: StatusFlags) -> Seq<char> {
    if s.wt_new {
        "?"@
    } else if s.wt_deleted || s.index_deleted {
        "D"@
    } else if s.wt_renamed || s.index_renamed {
        "R"@
    } else if s.wt_modified || s.index_modified {
        "M"@
    } else if s.index_new {
        "A"@
    } else {
        "M"@
    }
}

pub fn status_to_label(s: &StatusFlags) -> (r: &'static str)
    ensures
        r@ == status_label(*s),
{
    if s.wt_new {
        "?"
    } else if s.wt_deleted || s.index_deleted {
        "D"
    } else if s.wt_renamed || s.index_renamed {
        "R"
    } else if s.wt_modified || s.index_modified {
        "M"
    } else if s.index_new {
        "A"
    } else {
        "M"
    }
}

/// Some change of the file is in the index.
pub fn is_staged(s: &StatusFlags) -> (r: bool)
    ensures
        r == (s.index_new || s.index_modified || s.index_deleted || s.index_renamed
            || s.index_typechange),
{
    s.index_new || s.index_modified || s.index_deleted || s.index_renamed || s.index_typechange
}

/// One trailing `\r` removed.
pub open spec fn drop_cr(s: Seq<char>) -> Seq<char> {
    if s.len() > 0 && s.last() == '\r' {
        s.drop_last()
    } else {
        s
    }
}

/// `str::lines` as a fold: complete lines so far and the current one.
pub open spec fn lines_fold(t: Seq<char>) -> (Seq<Seq<char>>, Seq<char>)
    decreases t.len(),
{
    if t.len() == 0 {
        (Seq::empty(), Seq::empty())
    } else {
        let (ls, cur) = lines_fold(t.drop_last());
        if t.last() == '\n' {
            (ls.push(drop_cr(cur)), Seq::empty())
        } else {
            (ls, cur.push(t.last()))
        }
    }
}

/// The lines of `t` as `str::lines` yields them: split at `\n`, one `\r`
/// before it dropped, and a last line only when text follows the last
/// newline.
pub open spec fn text_lines(t: Seq<char>) -> Seq<Seq<char>> {
    let (ls, cur) = lines_fold(t);
    if cur.len() == 0 {
        ls
    } else {
        ls.push(cur)
    }
}

pub open spec fn digit_char(d: nat) -> char {
    ((d + 48) as u8) as char
}

/// The decimal numeral of `n`.
pub open spec fn decimal(n: nat) -> Seq<char>
    decreases n,
{
    if n < 10 {
        seq![digit_char(n)]
    } else {
        decimal(n / 10).push(digit_char(n % 10))
    }
}

/// The id a stash is listed with.
pub open spec fn stash_oid(i: nat) -> Seq<char> {
    "stash-"@ + decimal(i)
}

fn decimal_text(n: usize) -> (r: Vec<char>)
    ensures
        r@ == decimal(n as nat),
    decreases n,
{
    let d = n % 10;
    let c = ((d as u8) + 48) as char;
    if n < 10 {
        let mut v: Vec<char> = Vec::new();
        v.push(c);
        assert(v@ =~= seq![digit_char(n as nat)]);
        v
    } else {
        let mut v = decimal_text(n / 10);
        v.push(c);
        v
    }
}

/// The stash listing: one entry per line of `text`, numbered from 0.
pub fn parse_stash_list(text: &str) -> (r: Vec<StashEntry>)
    ensures
        r.len() == text_lines(text@).len(),
        forall|i: int|
            0 <= i < r.len() ==> {
                &&& (#[trigger] r@[i]).index == i
                &&& r@[i].message@ == text_lines(text@)[i]
                &&& r@[i].oid@ == stash_oid(i as nat)
            },
{
    let t = chars_of(text);
    let mut lines: Vec<Vec<char>> = Vec::new();
    let mut cur: Vec<char> = Vec::new();
    let mut i: usize = 0;
    assert(t@.take(0) =~= Seq::<char>::empty());
    assert(crate::lines::lines_view(lines@) =~= Seq::<Seq<char>>::empty());
    while i < t.len()
        invariant
            i <= t.len(),
            t@ == text@,
            (crate::lines::lines_view(lines@), cur@) == lines_fold(t@.take(i as int)),
        decreases t.len() - i,
    {
        assert(t@.take(i + 1).drop_last() =~= t@.take(i as int));
        if t[i] == '\n' {
            let ghost before = crate::lines::lines_view(lines@);
            let ghost c0 = cur@;
            if cur.len() > 0 && cur[cur.len() - 1] == '\r' {
                cur.pop();
                assert(cur@ =~= drop_cr(c0));
            }
            lines.push(cur);
            assert(crate::lines::lines_view(lines@) =~= before.push(drop_cr(c0)));
            cur = Vec::new();
            assert(cur@ =~= Seq::<char>::empty());
        } else {
            cur.push(t[i]);
        }
        i = i + 1;
    }
    assert(t@.take(t.len() as int) =~= t@);
    if cur.len() > 0 {
        let ghost before = crate::lines::lines_view(lines@);
        lines.push(cur);
        assert(crate::lines::lines_view(lines@) =~= before.push(lines@.last()@));
    }
    let ghost all = crate::lines::lines_view(lines@);
    assert(all == text_lines(text@));
    let mut out: Vec<StashEntry> = Vec::new();
    let mut k: usize = 0;
    while k < lines.len()
        invariant
            k <= lines.len(),
            all == crate::lines::lines_view(lines@),
            out.len() == k,
            forall|j: int|
                0 <= j < k ==> {
                    &&& (#[trigger] out@[j]).index == j
                    &&& out@[j].message@ == all[j]
                    &&& out@[j].oid@ == stash_oid(j as nat)
                },
        decreases lines.len() - k,
    {
        let mut oid = "stash-".to_owned();
        let digits = crate::text::string_of(&decimal_text(k));
        oid.append(digits.as_str());
        let message = crate::text::string_of(&lines[k]);
        out.push(StashEntry { index: k, message, oid });
        k = k + 1;
    }
    out
}

/// `git2::Repository`, carried through opaquely.
#[verifier::external_type_specification]
#[verifier::external_body]
pub struct ExRepository(git2::Repository);

/// `git2::Index`, carried through opaquely.
#[verifier::external_type_specification]
#[verifier::external_body]
pub struct ExIndex(git2::Index);

/// `git2::Error`, carried through opaquely.
#[verifier::external_type_specification]
#[verifier::external_body]
pub struct ExGitError(git2::Error);

/// Relies on `git2::Repository::discover`: opens the repository holding `path`.
#[verifier::external_body]
fn discover_repo(path: &str) -> (r: Result<git2::Repository, git2::Error>) {
    git2::Repository::discover(path)
}

/// Relies on `git2::Repository::index`: the repository's index.
#[verifier::external_body]
fn repo_index(repo: &git2::Repository) -> (r: Result<git2::Index, git2::Error>) {
    repo.index()
}

/// Relies on `git2::Index::add_path`: stages one file by its relative path.
#[verifier::external_body]
fn index_add(index: &mut git2::Index, file: &str) -> (r: Result<(), git2::Error>) {
    index.add_path(std::path::Path::new(file))
}

/// Relies on `git2::Index::remove_path`: takes one file out of the index.
#[verifier::external_body]
fn index_remove(index: &mut git2::Index, file: &str) -> (r: Result<(), git2::Error>) {
    index.remove_path(std::path::Path::new(file))
}

/// Relies on `git2::Index::write`: writes the index back to disk.
#[verifier::external_body]
fn index_write(index: &mut git2::Index) -> (r: Result<(), git2::Error>) {
    index.write()
}

/// Relies on `Display for git2::Error`: the error's message.
#[verifier::external_body]
fn git_error_text(e: &git2::Error) -> (r: String) {
    e.to_string()
}

/// `m` is `prefix` followed by the cause.
pub open spec fn caused(prefix: Seq<char>, m: Seq<char>) -> bool {
    m.len() >= prefix.len() && m.take(prefix.len() as int) == prefix
}

fn with_cause(prefix: &str, e: &git2::Error) -> (r: String)
    ensures
        caused(prefix@, r@),
{
    let mut m = prefix.to_owned();
    let t = git_error_text(e);
    m.append(t.as_str());
    assert(m@.take(prefix@.len() as int) =~= prefix@);
    m
}

pub open spec fn file_prefix(verb: Seq<char>, file: Seq<char>) -> Seq<char> {
    "failed to "@ + verb + " file '"@ + file + "': "@
}

fn file_error(verb: &str, file: &str, e: &git2::Error) -> (r: String)
    ensures
        caused(file_prefix(verb@, file@), r@),
{
    let mut p = "failed to ".to_owned();
    p.append(verb);
    p.append(" file '");
    p.append(file);
    p.append("': ");
    with_cause(p.as_str(), e)
}

/// The failures staging or unstaging can report, by the step that failed.
pub open spec fn index_failure(verb: Seq<char>, files: Seq<String>, m: Seq<char>) -> bool {
    ||| caused("failed to discover repository: "@, m)
    ||| caused("failed to open index for "@ + verb + ": "@, m)
    ||| (exists|i: int| 0 <= i < files.len() && caused(file_prefix(verb, #[trigger] files[i]@), m))
    ||| caused("failed to write index while "@ + verb + "ing: "@, m)
}

fn change_index(path: &str, files: Vec<String>, add: bool) -> (r: Result<(), String>)
    ensures
        r matches Err(m) ==> index_failure(if add { "stage"@ } else { "unstage"@ }, files@, m@),
{
    let verb = if add { "stage" } else { "unstage" };
    assert(verb@ == (if add { "stage"@ } else { "unstage"@ }));
    let repo = match discover_repo(path) {
        Ok(repo) => repo,
        Err(e) => {
            return Err(with_cause("failed to discover repository: ", &e));
        },
    };
    let mut index = match repo_index(&repo) {
        Ok(index) => index,
        Err(e) => {
            let mut p = "failed to open index for ".to_owned();
            p.append(verb);
            p.append(": ");
            return Err(with_cause(p.as_str(), &e));
        },
    };
    let mut i: usize = 0;
    while i < files.len()
        invariant
            i <= files.len(),
            verb@ == (if add { "stage"@ } else { "unstage"@ }),
        decreases files.len() - i,
    {
        let done = if add {
            index_add(&mut index, files[i].as_str())
        } else {
            index_remove(&mut index, files[i].as_str())
        };
        match done {
            Ok(()) => {},
            Err(e) => {
                let m = file_error(verb, files[i].as_str(), &e);
                assert(verb@ == (if add { "stage"@ } else { "unstage"@ }));
                assert(caused(file_prefix(verb@, files@[i as int]@), m@));
                return Err(m);
            },
        }
        i = i + 1;
    }
    match index_write(&mut index) {
        Ok(()) => Ok(()),
        Err(e) => {
            let mut p = "failed to write index while ".to_owned();
            p.append(verb);
            p.append("ing: ");
            Err(with_cause(p.as_str(), &e))
        },
    }
}

/// Stages the files, in order, and writes the index; the first failure
/// ends the work and is reported with the step it came from.
pub fn stage(path: &str, files: Vec<String>) -> (r: Result<(), String>)
    ensures
        r matches Err(m) ==> index_failure("stage"@, files@, m@),
{
    change_index(path, files, true)
}

/// Takes the files out of the index, in order, and writes it; the first
/// failure ends the work and is reported with the step it came from.
pub fn unstage(path: &str, files: Vec<String>) -> (r: Result<(), String>)
    ensures
        r matches Err(m) ==> index_failure("unstage"@, files@, m@),
{
    change_index(path, files, false)
}

/// How a stash is named on the command line.
pub open spec fn stash_ref(i: nat) -> Seq<char> {
    "stash@{"@ + decimal(i) + "}"@
}

fn stash_ref_text(i: usize) -> (r: String)
    ensures
        r@ == stash_ref(i as nat),
{
    let mut s = "stash@{".to_owned();
    let d = crate::text::string_of(&decimal_text(i));
    s.append(d.as_str());
    s.append("}");
    s
}

/// The `git stash` arguments for an action; listing runs none, and
/// dropping needs an index.
pub open spec fn stash_command(
    action: StashAction,
    message: Option<Seq<char>>,
    index: Option<usize>,
) -> Result<Option<Seq<Seq<char>>>, Seq<char>> {
    match action {
        StashAction::Push => Ok(
            Some(
                seq!["stash"@, "push"@] + match message {
                    Some(m) => seq!["-m"@, m],
                    None => Seq::empty(),
                },
            ),
        ),
        StashAction::Pop => Ok(
            Some(
                seq!["stash"@, "pop"@] + match index {
                    Some(i) => seq![stash_ref(i as nat)],
                    None => Seq::empty(),
                },
            ),
        ),
        StashAction::Drop => match index {
            Some(i) => Ok(Some(seq!["stash"@, "drop"@, stash_ref(i as nat)])),
            None => Err("stash drop requires an index"@),
        },
        StashAction::List => Ok(None),
    }
}

pub open spec fn stash_command_view(r: Result<Option<Vec<String>>, String>) -> Result<
    Option<Seq<Seq<char>>>,
    Seq<char>,
> {
    match r {
        Ok(Some(v)) => Ok(Some(strings_view(v@))),
        Ok(None) => Ok(None),
        Err(e) => Err(e@),
    }
}

fn words(a: &str, b: &str) -> (r: Vec<String>)
    ensures
        strings_view(r@) == seq![a@, b@],
{
    let mut v: Vec<String> = Vec::new();
    v.push(a.to_owned());
    v.push(b.to_owned());
    assert(strings_view(v@) =~= seq![a@, b@]);
    v
}

fn push_word(v: &mut Vec<String>, w: String)
    ensures
        strings_view(final(v)@) == strings_view(old(v)@).push(w@),
{
    v.push(w);
    assert(strings_view(v@) =~= strings_view(old(v)@).push(w@));
}

/// The arguments of the stash command to run before listing, if any.
pub fn stash_args(action: StashAction, message: Option<String>, index: Option<usize>) -> (r: Result<
    Option<Vec<String>>,
    String,
>)
    ensures
        stash_command_view(r) == stash_command(action, opt_chars(message), index),
{
    match action {
        StashAction::Push => {
            let mut v = words("stash", "push");
            let ghost m0 = opt_chars(message);
            match message {
                Some(m) => {
                    push_word(&mut v, "-m".to_owned());
                    push_word(&mut v, m);
                },
                None => {},
            }
            assert(strings_view(v@) =~= seq!["stash"@, "push"@] + match m0 {
                Some(m) => seq!["-m"@, m],
                None => Seq::<Seq<char>>::empty(),
            });
            Ok(Some(v))
        },
        StashAction::Pop => {
            let mut v = words("stash", "pop");
            match index {
                Some(i) => push_word(&mut v, stash_ref_text(i)),
                None => {},
            }
            assert(strings_view(v@) =~= seq!["stash"@, "pop"@] + match index {
                Some(i) => seq![stash_ref(i as nat)],
                None => Seq::<Seq<char>>::empty(),
            });
            Ok(Some(v))
        },
        StashAction::Drop => match index {
            Some(i) => {
                let mut v = words("stash", "drop");
                push_word(&mut v, stash_ref_text(i));
                assert(strings_view(v@) =~= seq!["stash"@, "drop"@, stash_ref(i as nat)]);
                Ok(Some(v))
            },
            None => Err("stash drop requires an index".to_owned()),
        },
        StashAction::List => Ok(None),
    }
}

/// The `git push` arguments: remote and branch when given, `--force` last.
pub open spec fn push_command(remote: Option<Seq<char>>, branch: Option<Seq<char>>, force: bool) -> Seq<
    Seq<char>,
> {
    seq!["push"@] + opt_seq(remote) + opt_seq(branch) + if force {
        seq!["--force"@]
    } else {
        Seq::empty()
    }
}

/// The `git pull` arguments: remote and branch when given.
pub open spec fn pull_command(remote: Option<Seq<char>>, branch: Option<Seq<char>>) -> Seq<
    Seq<char>,
> {
    seq!["pull"@] + opt_seq(remote) + opt_seq(branch)
}

pub fn push_args(remote: Option<String>, branch: Option<String>, force: Option<bool>) -> (r: Vec<
    String,
>)
    ensures
        strings_view(r@) == push_command(
            opt_chars(remote),
            opt_chars(branch),
            force == Some(true),
        ),
{
    let mut v: Vec<String> = Vec::new();
    push_word(&mut v, "push".to_owned());
    match remote {
        Some(x) => push_word(&mut v, x),
        None => {},
    }
    match branch {
        Some(x) => push_word(&mut v, x),
        None => {},
    }
    if force == Some(true) {
        push_word(&mut v, "--force".to_owned());
    }
    assert(strings_view(v@) =~= push_command(
        opt_chars(remote),
        opt_chars(branch),
        force == Some(true),
    ));
    v
}

pub fn pull_args(remote: Option<String>, branch: Option<String>) -> (r: Vec<String>)
    ensures
        strings_view(r@) == pull_command(opt_chars(remote), opt_chars(branch)),
{
    let mut v: Vec<String> = Vec::new();
    push_word(&mut v, "pull".to_owned());
    match remote {
        Some(x) => push_word(&mut v, x),
        None => {},
    }
    match branch {
        Some(x) => push_word(&mut v, x),
        None => {},
    }
    assert(strings_view(v@) =~= pull_command(opt_chars(remote), opt_chars(branch)));
    v
}

/// What a finished command reports: its trimmed standard output when it
/// succeeded, else its trimmed standard error.
pub fn command_detail(success: bool, stdout: &str, stderr: &str) -> (r: String)
    ensures
        r@ == trim_ws(if success {
            stdout@
        } else {
            stderr@
        }),
{
    let text = if success {
        chars_of(stdout)
    } else {
        chars_of(stderr)
    };
    crate::text::string_of(&trim(&text))
}

pub fn push_result(success: bool, stdout: &str, stderr: &str) -> (r: PushResult)
    ensures
        r.ok == success,
        r.detail@ == trim_ws(if success {
            stdout@
        } else {
            stderr@
        }),
{
    PushResult { ok: success, detail: command_detail(success, stdout, stderr) }
}

pub fn pull_result(success: bool, stdout: &str, stderr: &str) -> (r: PullResult)
    ensures
        r.ok == success,
        r.detail@ == trim_ws(if success {
            stdout@
        } else {
            stderr@
        }),
{
    PullResult { ok: success, detail: command_detail(success, stdout, stderr) }
}

/// The kind of a diff line by its origin marker.
pub open spec fn line_kind(origin: char) -> Seq<char> {
    if origin == '+' {
        "add"@
    } else if origin == '-' {
        "del"@
    } else {
        "context"@
    }
}

pub fn diff_line_kind(origin: char) -> (r: &'static str)
    ensures
        r@ == line_kind(origin),
{
    if origin == '+' {
        "add"
    } else if origin == '-' {
        "del"
    } else {
        "context"
    }
}

/// The first seven characters of an object id.
pub fn short_oid(oid: &str) -> (r: String)
    ensures
        r@ == oid@.take(if oid@.len() < 7 { oid@.len() as int } else { 7 }),
{
    let cs = chars_of(oid);
    let n: usize = if cs.len() < 7 {
        cs.len()
    } else {
        7
    };
    let mut out: Vec<char> = Vec::new();
    let mut i: usize = 0;
    while i < n
        invariant
            i <= n <= cs.len(),
            cs@ == oid@,
            out@ =~= cs@.take(i as int),
        decreases n - i,
    {
        out.push(cs[i]);
        i = i + 1;
    }
    crate::text::string_of(&out)
}

} // verus!
