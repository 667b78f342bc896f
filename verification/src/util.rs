//! Shared helpers: the platforms and their system tools, captured output,
//! file names and host resolution.

use crate::ip::{self, IpAddr};
use crate::text;
use vstd::prelude::*;

verus! {

/// The platforms that the tools tell apart. `Unix` is any Unix other than
/// macOS.
#[derive(Clone, Copy, Debug, PartialEq, Eq, Structural)]
pub enum Os {
    MacOs,
    Windows,
    Unix,
}

/// A system command and its arguments.
#[derive(Debug)]
pub struct CommandLine {
    pub program: String,
    pub args: Vec<String>,
}

/// The texts of a command.
pub struct CommandWords {
    pub program: Seq<char>,
    pub args: Seq<Seq<char>>,
}

impl DeepView for CommandLine {
    type V = CommandWords;

    open spec fn deep_view(&self) -> CommandWords {
        CommandWords { program: self.program@, args: self.args.deep_view() }
    }
}

/// The command `program` with the given arguments.
pub open spec fn words_of(program: Seq<char>, args: Seq<Seq<char>>) -> CommandWords {
    CommandWords { program, args }
}

/// How a system command ended: with its decoded output, or with the reason
/// why it could not be started.
#[derive(Debug)]
pub enum Captured {
    Output { stdout: String, stderr: String },
    Failed { reason: String },
}

/// All that a command printed: standard output followed by standard error
/// unless that is blank.
pub open spec fn all_output(stdout: Seq<char>, stderr: Seq<char>) -> Seq<char> {
    if text::trimmed(stderr).len() == 0 {
        stdout
    } else {
        stdout + stderr
    }
}

/// What the user sees of a command that ran: all that it printed, or a note
/// when it printed nothing.
pub open spec fn captured_output(
    program: Seq<char>,
    stdout: Seq<char>,
    stderr: Seq<char>,
) -> Seq<char> {
    let all = all_output(stdout, stderr);
    if text::trimmed(all).len() == 0 {
        "("@ + program + ": no output)"@
    } else {
        all
    }
}

/// What the user sees of a command that could not be started.
pub open spec fn cannot_run(program: Seq<char>, reason: Seq<char>) -> Seq<char> {
    "Cannot run `"@ + program + "`: "@ + reason
}

/// What the user sees of a command, however it ended.
pub open spec fn captured_text(program: Seq<char>, outcome: Captured) -> Seq<char> {
    match outcome {
        Captured::Output { stdout, stderr } => captured_output(program, stdout@, stderr@),
        Captured::Failed { reason } => cannot_run(program, reason@),
    }
}

/// What a command printed: nothing, if it could not be started.
pub open spec fn printed(outcome: Captured) -> Seq<char> {
    match outcome {
        Captured::Output { stdout, stderr } => all_output(stdout@, stderr@),
        Captured::Failed { reason } => seq![],
    }
}

/// What a command printed: nothing, if it could not be started.
pub fn printed_text(outcome: &Captured) -> (r: String)
    ensures
        r@ == printed(*outcome),
{
    match outcome {
        Captured::Output { stdout, stderr } => {
            let mut s = stdout.clone();
            if !text::is_blank(stderr.as_str()) {
                s.append(stderr.as_str());
            }
            s
        },
        Captured::Failed { .. } => String::new(),
    }
}

/// The text for the outcome of running `prog`: stdout and stderr as text, or
/// an error message.
pub fn run_capture(prog: &str, outcome: &Captured) -> (r: String)
    ensures
        r@ == captured_text(prog@, *outcome),
{
    match outcome {
        Captured::Output { .. } => {
            let s = printed_text(outcome);
            if text::is_blank(s.as_str()) {
                let mut note = "(".to_owned();
                note.append(prog);
                note.append(": no output)");
                note
            } else {
                s
            }
        },
        Captured::Failed { reason } => {
            let mut s = "Cannot run `".to_owned();
            s.append(prog);
            s.append("`: ");
            s.append(reason.as_str());
            s
        },
    }
}

/// A command that cannot be started is recognized by its text: the text of
/// [`run_capture`] then begins with "Cannot run".
pub proof fn law_failure_is_recognized(program: Seq<char>, reason: Seq<char>)
    ensures
        text::starts_with_text(cannot_run(program, reason), "Cannot run"@),
{
    reveal_strlit("Cannot run");
    reveal_strlit("Cannot run `");
    let t = cannot_run(program, reason);
    assert(t.subrange(0, 10) =~= "Cannot run"@);
}

/// The command that opens a folder in the platform file manager.
pub open spec fn file_manager(os: Os) -> Seq<char> {
    match os {
        Os::MacOs => "open"@,
        Os::Windows => "explorer"@,
        Os::Unix => "xdg-open"@,
    }
}

/// The command that opens the folder `path` in the platform file manager.
pub fn open_in_file_manager(os: Os, path: &str) -> (r: CommandLine)
    ensures
        r.deep_view() == words_of(file_manager(os), seq![path@]),
{
    let program = match os {
        Os::MacOs => "open".to_owned(),
        Os::Windows => "explorer".to_owned(),
        Os::Unix => "xdg-open".to_owned(),
    };
    let args = vec![path.to_owned()];
    assert(args.deep_view() =~= seq![path@]);
    CommandLine { program, args }
}

/// The folder that log subfolders are created in: the configured one, or
/// "logs" when none is configured.
pub open spec fn log_base_text(base: Seq<char>) -> Seq<char> {
    if text::trimmed(base).len() == 0 {
        "logs"@
    } else {
        text::trimmed(base)
    }
}

/// The folder that log subfolders are created in.
pub fn log_base(base: &str) -> (r: String)
    ensures
        r@ == log_base_text(base@),
{
    let trimmed = text::trim(base);
    if trimmed.as_str().is_empty() {
        "logs".to_owned()
    } else {
        trimmed
    }
}

/// The error for a log folder that could not be created.
pub fn folder_error(error: &str) -> (r: String)
    ensures
        r@ == "failed to create log directory: "@ + error@,
{
    let mut s = "failed to create log directory: ".to_owned();
    s.append(error);
    s
}

/// The error for a log file that could not be created.
pub fn create_error(path: &str, error: &str) -> (r: String)
    ensures
        r@ == "failed to create log file "@ + path@ + ": "@ + error@,
{
    let mut s = "failed to create log file ".to_owned();
    s.append(path);
    s.append(": ");
    s.append(error);
    s
}

/// The error for a file that could not be written.
pub fn write_error(path: &str, error: &str) -> (r: String)
    ensures
        r@ == "failed to write "@ + path@ + ": "@ + error@,
{
    let mut s = "failed to write ".to_owned();
    s.append(path);
    s.append(": ");
    s.append(error);
    s
}

/// The name of an exported file: what it holds and when it was written.
pub fn export_file_name(kind: &str, stamp: &str) -> (r: String)
    ensures
        r@ == kind@ + "_"@ + stamp@ + ".txt"@,
{
    let mut s = kind.to_owned();
    s.append("_");
    s.append(stamp);
    s.append(".txt");
    s
}

// -------------------------------------------------------------------- Export

/// A file to export.
#[derive(Debug)]
pub struct ExportFile {
    /// The path of the file: the log folder, its subfolder and the name.
    pub parts: Vec<String>,
    /// The text to write.
    pub text: String,
}

/// The path of an exported file in the subfolder `kind` of the log folder.
pub open spec fn export_parts(
    log_dir: Seq<char>,
    kind: Seq<char>,
    stamp: Seq<char>,
) -> Seq<Seq<char>> {
    seq![log_base_text(log_dir), kind, kind + "_"@ + stamp + ".txt"@]
}

/// The file to export `text` to.
pub fn export_file(log_dir: &str, kind: &str, stamp: &str, text: String) -> (r: ExportFile)
    ensures
        r.parts.deep_view() == export_parts(log_dir@, kind@, stamp@),
        r.text == text,
{
    let parts = vec![log_base(log_dir), kind.to_owned(), export_file_name(kind, stamp)];
    assert(parts.deep_view() =~= export_parts(log_dir@, kind@, stamp@));
    ExportFile { parts, text }
}

/// What an export does next.
#[derive(Debug)]
pub enum ExportStep {
    /// Create the folder of the file.
    CreateFolder,
    /// Write the text to the file.
    Write,
    /// Nothing more: the path of the file, or what went wrong.
    Finished(Result<String, String>),
}

/// What a step is.
pub enum ExportMove {
    CreateFolder,
    Write,
    Finished(Result<Seq<char>, Seq<char>>),
}

impl DeepView for ExportStep {
    type V = ExportMove;

    open spec fn deep_view(&self) -> ExportMove {
        match self {
            ExportStep::CreateFolder => ExportMove::CreateFolder,
            ExportStep::Write => ExportMove::Write,
            ExportStep::Finished(Ok(path)) => ExportMove::Finished(Ok(path@)),
            ExportStep::Finished(Err(e)) => ExportMove::Finished(Err(e@)),
        }
    }
}

/// The text of the error of something that was done.
pub open spec fn error_text(outcome: Result<(), String>) -> Result<(), Seq<char>> {
    match outcome {
        Ok(_) => Ok(()),
        Err(e) => Err(e@),
    }
}

/// The text of the error of something that may have been done already.
pub open spec fn error_text_of(outcome: Option<Result<(), String>>) -> Option<
    Result<(), Seq<char>>,
> {
    match outcome {
        None => None,
        Some(o) => Some(error_text(o)),
    }
}

/// The next move of an export to `path`, by what came of creating the folder
/// and of writing the file, as far as they were done.
pub open spec fn export_move(
    created: Option<Result<(), Seq<char>>>,
    written: Option<Result<(), Seq<char>>>,
    path: Seq<char>,
) -> ExportMove {
    match created {
        None => ExportMove::CreateFolder,
        Some(Err(e)) => ExportMove::Finished(Err("failed to create log directory: "@ + e)),
        Some(Ok(_)) => match written {
            None => ExportMove::Write,
            Some(Err(e)) => ExportMove::Finished(Err("failed to write "@ + path + ": "@ + e)),
            Some(Ok(_)) => ExportMove::Finished(Ok(path)),
        },
    }
}

/// What an export does next, by what came of creating the folder and of
/// writing the file, as far as they were done. `path` is the path of the file
/// as text.
pub fn export_step(
    created: &Option<Result<(), String>>,
    written: &Option<Result<(), String>>,
    path: &str,
) -> (r: ExportStep)
    ensures
        r.deep_view() == export_move(error_text_of(*created), error_text_of(*written), path@),
{
    match created {
        None => ExportStep::CreateFolder,
        Some(Err(e)) => ExportStep::Finished(Err(folder_error(e.as_str()))),
        Some(Ok(_)) => match written {
            None => ExportStep::Write,
            Some(Err(e)) => ExportStep::Finished(Err(write_error(path, e.as_str()))),
            Some(Ok(_)) => ExportStep::Finished(Ok(path.to_owned())),
        },
    }
}

/// An export creates the folder first and writes only where that succeeded. It
/// succeeds exactly when both did, with the path of the file; otherwise it
/// ends with the error of the first of them that failed.
pub proof fn law_export(
    created: Result<(), Seq<char>>,
    written: Result<(), Seq<char>>,
    path: Seq<char>,
)
    ensures
        export_move(None, None, path) == ExportMove::CreateFolder,
        export_move(Some(created), None, path) == ExportMove::Write <==> created is Ok,
        export_move(Some(created), Some(written), path) == ExportMove::Finished(Ok(path))
            <==> created is Ok && written is Ok,
        created matches Err(e) ==> export_move(Some(created), None, path)
            == ExportMove::Finished(Err("failed to create log directory: "@ + e)),
        created is Ok ==> (written matches Err(e) ==> export_move(
            Some(created),
            Some(written),
            path,
        ) == ExportMove::Finished(Err("failed to write "@ + path + ": "@ + e))),
{
}

// ---------------------------------------------------------------- File names

/// Whether a character is a letter or a number of any script.
pub uninterp spec fn letter_or_number(c: char) -> bool;

/// Whether `c` is an ASCII letter or digit.
pub open spec fn ascii_letter_or_digit(c: char) -> bool {
    'a' <= c <= 'z' || 'A' <= c <= 'Z' || '0' <= c <= '9'
}

/// `char::is_alphanumeric`: the answer depends on the character alone. Of the
/// ASCII characters it holds for letters and digits only; which other
/// characters are letters or numbers is left to the Unicode tables.
pub assume_specification[ char::is_alphanumeric ](c: char) -> (r: bool)
    ensures
        r == letter_or_number(c),
        c <= '\u{7f}' ==> r == ascii_letter_or_digit(c),
;

/// Whether a character may stand in the file name of a target.
pub open spec fn file_name_char(c: char) -> bool {
    letter_or_number(c) || c == '.' || c == '-'
}

/// `s` with `_` in place of each character that may not stand in a file name.
pub open spec fn file_name_text(s: Seq<char>) -> Seq<char> {
    s.map_values(
        |c: char|
            if file_name_char(c) {
                c
            } else {
                '_'
            },
    )
}

/// Sanitizes a target (IP/FQDN) so it can be used in a file name.
pub fn sanitize_filename(s: &str) -> (r: String)
    ensures
        r@ == file_name_text(s@),
        !r@.contains('/') && !r@.contains('\\') && !r@.contains(':') && !r@.contains(';'),
        !r@.contains('~'),
{
    let cs = text::chars_of(s);
    let mut out = String::new();
    let mut i: usize = 0;
    assert(out@ =~= file_name_text(cs@.take(0)));
    while i < cs.len()
        invariant
            cs@ == s@,
            i <= cs@.len(),
            out@ == file_name_text(cs@.take(i as int)),
            !out@.contains('/') && !out@.contains('\\') && !out@.contains(':') && !out@.contains(
                ';',
            ),
            !out@.contains('~'),
        decreases cs@.len() - i,
    {
        let c = cs[i];
        let kept = if c.is_alphanumeric() || c == '.' || c == '-' {
            c
        } else {
            '_'
        };
        let ghost before = out@;
        out.push(kept);
        i += 1;
        assert(out@ =~= file_name_text(cs@.take(i as int)));
        assert forall|x: char| out@.contains(x) implies before.contains(x) || x == kept by {
            let k = choose|k: int| 0 <= k < out@.len() && out@[k] == x;
            if k < before.len() {
                assert(before[k] == x);
            }
        }
    }
    assert(cs@.take(i as int) =~= cs@);
    out
}

/// Sanitizing keeps the number of characters, and sanitizing a second time
/// changes nothing more.
pub proof fn law_sanitize_idempotent(s: Seq<char>)
    ensures
        file_name_text(s).len() == s.len(),
        file_name_text(file_name_text(s)) == file_name_text(s),
{
    assert(file_name_text(file_name_text(s)) =~= file_name_text(s));
}

/// How often `name` occurs among the names.
pub open spec fn occurrences(names: Seq<Seq<char>>, name: Seq<char>) -> nat
    decreases names.len(),
{
    if names.len() == 0 {
        0
    } else {
        occurrences(names.drop_last(), name) + (if names.last() == name {
            1nat
        } else {
            0
        })
    }
}

/// The targets as they stand in file names.
pub open spec fn sanitized(targets: Seq<Seq<char>>) -> Seq<Seq<char>> {
    Seq::new(targets.len(), |i: int| file_name_text(targets[i]))
}

/// A name that was taken `taken` times before: numbered, unless it is new.
pub open spec fn numbered(name: Seq<char>, taken: nat) -> Seq<char> {
    if taken == 0 {
        name
    } else {
        name + "~"@ + text::decimal_text(taken + 1)
    }
}

/// What stands for the target with index `i` in file names: the sanitized
/// target, numbered where targets before it are sanitized to the same text.
pub open spec fn file_label(targets: Seq<Seq<char>>, i: int) -> Seq<char> {
    numbered(
        file_name_text(targets[i]),
        occurrences(sanitized(targets).take(i), file_name_text(targets[i])),
    )
}

/// Whether no other target is sanitized to the same text.
pub open spec fn stands_alone(targets: Seq<Seq<char>>, i: int) -> bool {
    forall|j: int|
        0 <= j < targets.len() && j != i ==> file_name_text(#[trigger] targets[j])
            != file_name_text(targets[i])
}

/// The name of a file about the target with index `i`.
pub open spec fn target_file(
    prefix: Seq<char>,
    stamp: Seq<char>,
    targets: Seq<Seq<char>>,
    i: int,
    suffix: Seq<char>,
) -> Seq<char> {
    prefix + stamp + "_"@ + file_label(targets, i) + suffix
}

proof fn lemma_occurrences_grow(names: Seq<Seq<char>>, i: int, j: int, name: Seq<char>)
    requires
        0 <= i <= j <= names.len(),
    ensures
        occurrences(names.take(i), name) <= occurrences(names.take(j), name),
    decreases j - i,
{
    if i < j {
        lemma_occurrences_grow(names, i, j - 1, name);
        assert(names.take(j).drop_last() =~= names.take(j - 1));
    }
}

proof fn lemma_no_occurrence(names: Seq<Seq<char>>, name: Seq<char>)
    requires
        forall|j: int| 0 <= j < names.len() ==> #[trigger] names[j] != name,
    ensures
        occurrences(names, name) == 0,
    decreases names.len(),
{
    if names.len() > 0 {
        lemma_no_occurrence(names.drop_last(), name);
    }
}

/// A numbered name tells the name and the number.
proof fn lemma_numbered(a: Seq<char>, n: nat, b: Seq<char>, m: nat)
    requires
        !a.contains('~'),
        !b.contains('~'),
        numbered(a, n) == numbered(b, m),
    ensures
        a == b,
        n == m,
{
    reveal_strlit("~");
    let s = numbered(a, n);
    if n > 0 {
        assert(s[a.len() as int] == '~');
    }
    if m > 0 {
        assert(s[b.len() as int] == '~');
    }
    if n > 0 && m > 0 {
        if a.len() < b.len() {
            assert(b[a.len() as int] == '~');
        } else if b.len() < a.len() {
            assert(a[b.len() as int] == '~');
        }
        assert(a =~= s.take(a.len() as int));
        assert(b =~= s.take(b.len() as int));
        assert(text::decimal_text(n + 1) =~= s.skip(a.len() as int + 1));
        assert(text::decimal_text(m + 1) =~= s.skip(b.len() as int + 1));
        text::lemma_decimal_round_trip(n + 1);
        text::lemma_decimal_round_trip(m + 1);
    } else if n > 0 {
        assert(b[a.len() as int] == '~');
    } else if m > 0 {
        assert(a[b.len() as int] == '~');
    }
}

proof fn lemma_labels_differ(targets: Seq<Seq<char>>, i: int, j: int)
    requires
        0 <= i < j < targets.len(),
        !file_name_text(targets[i]).contains('~'),
        !file_name_text(targets[j]).contains('~'),
    ensures
        file_label(targets, i) != file_label(targets, j),
{
    let names = sanitized(targets);
    let name = names[i];
    if file_label(targets, i) == file_label(targets, j) {
        lemma_numbered(
            names[i],
            occurrences(names.take(i), names[i]),
            names[j],
            occurrences(names.take(j), names[j]),
        );
        assert(names.take(i + 1).drop_last() =~= names.take(i));
        assert(names.take(i + 1).last() == name);
        lemma_occurrences_grow(names, i + 1, j, name);
    }
}

fn count_occurrences(names: &Vec<String>, name: &str) -> (r: usize)
    ensures
        r == occurrences(names.deep_view(), name@),
        r <= names@.len(),
{
    let ghost nv = names.deep_view();
    let mut count: usize = 0;
    let mut i: usize = 0;
    assert(nv.take(0) =~= seq![]);
    while i < names.len()
        invariant
            nv == names.deep_view(),
            i <= names@.len(),
            count <= i,
            count == occurrences(nv.take(i as int), name@),
        decreases names@.len() - i,
    {
        assert(nv.take(i + 1).drop_last() =~= nv.take(i as int));
        assert(nv.take(i + 1).last() == names@[i as int]@);
        if text::same(names[i].as_str(), name) {
            count = count + 1;
        }
        i += 1;
    }
    assert(nv.take(i as int) =~= nv);
    count
}

/// The names of the files about the targets: one for each of them, none of
/// them shared. A target that no other one is sanitized alike has its own
/// sanitized text in the name.
pub fn target_files(prefix: &str, stamp: &str, targets: &Vec<String>, suffix: &str) -> (r: Vec<
    String,
>)
    ensures
        r@.len() == targets@.len(),
        forall|i: int|
            0 <= i < r@.len() ==> (#[trigger] r@[i])@ == target_file(
                prefix@,
                stamp@,
                targets.deep_view(),
                i,
                suffix@,
            ),
        r.deep_view().no_duplicates(),
        forall|i: int|
            0 <= i < r@.len() && stands_alone(targets.deep_view(), i) ==> (#[trigger] r@[i])@
                == prefix@ + stamp@ + "_"@ + file_name_text(targets@[i]@) + suffix@,
{
    let ghost tv = targets.deep_view();
    let ghost names_view = sanitized(tv);
    let mut names: Vec<String> = Vec::new();
    let mut files: Vec<String> = Vec::new();
    let mut i: usize = 0;
    assert(names.deep_view() =~= names_view.take(0));
    while i < targets.len()
        invariant
            tv == targets.deep_view(),
            names_view == sanitized(tv),
            i <= targets@.len(),
            names.deep_view() == names_view.take(i as int),
            files@.len() == i,
            forall|k: int| 0 <= k < i ==> !file_name_text(#[trigger] tv[k]).contains('~'),
            forall|k: int|
                0 <= k < i ==> (#[trigger] files@[k])@ == target_file(
                    prefix@,
                    stamp@,
                    tv,
                    k,
                    suffix@,
                ),
        decreases targets@.len() - i,
    {
        let name = sanitize_filename(targets[i].as_str());
        assert(tv[i as int] == targets@[i as int]@);
        let taken: usize = count_occurrences(&names, name.as_str());
        let mut file = prefix.to_owned();
        file.append(stamp);
        file.append("_");
        file.append(name.as_str());
        if taken > 0 {
            file.append("~");
            file.append(text::decimal(taken as u128 + 1).as_str());
        }
        file.append(suffix);
        assert(file@ =~= target_file(prefix@, stamp@, tv, i as int, suffix@));
        files.push(file);
        let ghost before = names;
        names.push(name);
        proof {
            text::lemma_pushed_view(before, names, name);
            assert(names.deep_view() =~= names_view.take(i + 1));
        }
        i += 1;
    }
    proof {
        let head = prefix@ + stamp@ + "_"@;
        assert forall|a: int, b: int| 0 <= a < b < files@.len() implies #[trigger] files@[a]@
            != #[trigger] files@[b]@ by {
            lemma_labels_differ(tv, a, b);
            lemma_framed(head, file_label(tv, a), file_label(tv, b), suffix@);
        }
        let fv = files.deep_view();
        assert forall|a: int, b: int|
            0 <= a < fv.len() && 0 <= b < fv.len() && a != b implies fv[a] != fv[b] by {
            assert(fv[a] == files@[a]@ && fv[b] == files@[b]@);
        }
        assert forall|k: int| 0 <= k < files@.len() && stands_alone(tv, k) implies (
        #[trigger] files@[k])@ == prefix@ + stamp@ + "_"@ + file_name_text(targets@[k]@)
            + suffix@ by {
            assert forall|j: int| 0 <= j < k implies #[trigger] names_view.take(k)[j]
                != names_view[k] by {
                assert(tv[j] == targets@[j]@);
            }
            lemma_no_occurrence(names_view.take(k), names_view[k]);
        }
    }
    files
}

/// Different texts stay different between the same beginning and end.
proof fn lemma_framed(head: Seq<char>, a: Seq<char>, b: Seq<char>, tail: Seq<char>)
    requires
        a != b,
    ensures
        head + a + tail != head + b + tail,
{
    if head + a + tail == head + b + tail {
        let s = head + a + tail;
        assert(s.len() == head.len() + b.len() + tail.len());
        assert(a =~= s.subrange(head.len() as int, (head.len() + a.len()) as int));
        assert(b =~= s.subrange(head.len() as int, (head.len() + b.len()) as int));
    }
}

// ---------------------------------------------------------------- Resolution

/// The first IPv4 address of the list.
pub open spec fn first_v4(found: Seq<IpAddr>) -> Option<IpAddr>
    decreases found.len(),
{
    if found.len() == 0 {
        None
    } else if found[0] is V4 {
        Some(found[0])
    } else {
        first_v4(found.skip(1))
    }
}

/// The first IPv4 address of the list, or else its first address.
pub open spec fn preferred(found: Seq<IpAddr>) -> Option<IpAddr> {
    if first_v4(found) is Some || found.len() == 0 {
        first_v4(found)
    } else {
        Some(found[0])
    }
}

/// The address of `target`: a literal IP is taken as it is, whatever the
/// lookup of the name gave; of the addresses found for a name, IPv4 is
/// preferred.
pub fn resolve_host(target: &str, found: &Result<Vec<IpAddr>, String>) -> (r: Result<IpAddr, String>)
    ensures
        match ip::ip_value(target@) {
            Some(literal) => r == Ok::<IpAddr, String>(literal),
            None => match found {
                Ok(addresses) => match preferred(addresses@) {
                    Some(address) => r == Ok::<IpAddr, String>(address),
                    None => r is Err && r->Err_0@ == "DNS resolution returned no address"@,
                },
                Err(e) => r is Err && r->Err_0@ == "DNS resolution failed: "@ + e@,
            },
        },
{
    if let Some(literal) = ip::parse_ip(target) {
        return Ok(literal);
    }
    match found {
        Ok(addresses) => match pick_address(addresses) {
            Some(address) => Ok(address),
            None => Err("DNS resolution returned no address".to_owned()),
        },
        Err(e) => {
            let mut message = "DNS resolution failed: ".to_owned();
            message.append(e.as_str());
            Err(message)
        },
    }
}

fn pick_address(found: &Vec<IpAddr>) -> (r: Option<IpAddr>)
    ensures
        r == preferred(found@),
{
    let mut i: usize = 0;
    assert(found@.skip(0) =~= found@);
    while i < found.len()
        invariant
            i <= found@.len(),
            first_v4(found@) == first_v4(found@.skip(i as int)),
        decreases found@.len() - i,
    {
        if found[i].is_ipv4() {
            return Some(found[i]);
        }
        assert(found@.skip(i as int).skip(1) =~= found@.skip(i + 1));
        i += 1;
    }
    if found.len() == 0 {
        None
    } else {
        Some(found[0])
    }
}

// ----------------------------------------------------- What commands printed

/// What a command printed is its output with its error output behind it, unless
/// the error output is blank; of a command that could not be run it is nothing.
pub proof fn law_output_is_kept(stdout: String, stderr: String, reason: String)
    ensures
        text::all_space(stderr@) ==> printed(Captured::Output { stdout, stderr }) == stdout@,
        !text::all_space(stderr@) ==> printed(Captured::Output { stdout, stderr }) == stdout@
            + stderr@,
        printed(Captured::Failed { reason }).len() == 0,
{
    text::lemma_blank(stderr@);
}

/// The text of a command that printed something is what it printed; that of one
/// that printed nothing, or could not be run, says so and names it.
pub proof fn law_captured_text(program: Seq<char>, stdout: String, stderr: String, reason: String)
    ensures
        !text::all_space(stdout@) && text::all_space(stderr@) ==> captured_text(
            program,
            Captured::Output { stdout, stderr },
        ) == stdout@,
        !text::all_space(stderr@) ==> captured_text(program, Captured::Output { stdout, stderr })
            == stdout@ + stderr@,
        text::all_space(stdout@) && text::all_space(stderr@) ==> captured_text(
            program,
            Captured::Output { stdout, stderr },
        ) == "("@ + program + ": no output)"@,
        captured_text(program, Captured::Failed { reason }) == "Cannot run `"@ + program + "`: "@
            + reason@,
{
    text::lemma_blank(stderr@);
    text::lemma_blank(stdout@);
    let all = stdout@ + stderr@;
    text::lemma_blank(all);
    if !text::all_space(stderr@) {
        let i = choose|i: int| 0 <= i < stderr@.len() && !text::is_space(#[trigger] stderr@[i]);
        assert(all[stdout@.len() + i] == stderr@[i]);
    }
}

/// The folder for logs is the one that was asked for, without the white space
/// around it, or `logs` where none was.
pub proof fn law_log_base(a: Seq<char>, base: Seq<char>, b: Seq<char>)
    requires
        text::all_space(a),
        text::all_space(b),
        base.len() == 0 || !text::is_space(base[0]) && !text::is_space(base.last()),
    ensures
        base.len() > 0 ==> log_base_text(a + base + b) == base,
        base.len() == 0 ==> log_base_text(a + base + b) == "logs"@,
{
    text::law_trimmed(a, base, b);
}

/// An export goes to a folder of its kind below the folder for logs, into a file
/// that is named by the kind and the time.
pub proof fn law_export_path(log_dir: Seq<char>, kind: Seq<char>, stamp: Seq<char>, other: Seq<char>)
    ensures
        export_parts(log_dir, kind, stamp).len() == 3,
        export_parts(log_dir, kind, stamp)[0] == log_base_text(log_dir),
        export_parts(log_dir, kind, stamp)[1] == kind,
        export_parts(log_dir, kind, stamp)[2] == kind + "_"@ + stamp + ".txt"@,
        stamp != other ==> export_parts(log_dir, kind, stamp)[2] != export_parts(
            log_dir,
            kind,
            other,
        )[2],
{
    let x = export_parts(log_dir, kind, stamp)[2];
    let y = export_parts(log_dir, kind, other)[2];
    if x == y {
        let n = (kind + "_"@).len() as int;
        assert(x.len() == n + stamp.len() + ".txt"@.len());
        assert(y.len() == n + other.len() + ".txt"@.len());
        assert(stamp.len() == other.len());
        assert(stamp =~= x.subrange(n, n + stamp.len()));
        assert(other =~= y.subrange(n, n + other.len()));
    }
}

/// The program that opens a folder on each system.
pub proof fn law_file_manager()
    ensures
        file_manager(Os::MacOs) == "open"@,
        file_manager(Os::Windows) == "explorer"@,
        file_manager(Os::Unix) == "xdg-open"@,
{
}

/// In a file name, letters, digits, dots and hyphens stay as they are, and every
/// other character becomes an underscore.
pub proof fn law_file_name(s: Seq<char>)
    ensures
        file_name_text(s).len() == s.len(),
        forall|i: int|
            0 <= i < s.len() && (letter_or_number(s[i]) || s[i] == '.' || s[i] == '-')
                ==> #[trigger] file_name_text(s)[i] == s[i],
        forall|i: int|
            0 <= i < s.len() && !letter_or_number(s[i]) && s[i] != '.' && s[i] != '-'
                ==> #[trigger] file_name_text(s)[i] == '_',
{
}

/// A target has its own name in the names of its files. Where an earlier target
/// has the same, a tilde and its number among them follow.
pub proof fn law_file_label(targets: Seq<Seq<char>>, i: int, j: int)
    requires
        0 <= i < targets.len(),
    ensures
        text::starts_with_text(file_label(targets, i), file_name_text(targets[i])),
        (forall|k: int|
            0 <= k < i ==> file_name_text(#[trigger] targets[k]) != file_name_text(targets[i]))
            ==> file_label(targets, i) == file_name_text(targets[i]),
        0 <= j < i && file_name_text(targets[j]) == file_name_text(targets[i]) && (forall|k: int|
            0 <= k < i && k != j ==> file_name_text(#[trigger] targets[k]) != file_name_text(
                targets[i],
            )) ==> file_label(targets, i) == file_name_text(targets[i]) + "~"@ + text::decimal_text(
            2,
        ),
{
    let name = file_name_text(targets[i]);
    let names = sanitized(targets).take(i);
    let label = file_label(targets, i);
    assert(label.subrange(0, name.len() as int) =~= name);
    if forall|k: int| 0 <= k < i ==> file_name_text(#[trigger] targets[k]) != name {
        assert forall|k: int| 0 <= k < names.len() implies #[trigger] names[k] != name by {
            assert(names[k] == file_name_text(targets[k]));
        }
        lemma_no_occurrence(names, name);
    }
    if 0 <= j < i && file_name_text(targets[j]) == name && (forall|k: int|
        0 <= k < i && k != j ==> file_name_text(#[trigger] targets[k]) != name) {
        assert forall|k: int| 0 <= k < names.len() && k != j implies #[trigger] names[k] != name by {
            assert(names[k] == file_name_text(targets[k]));
        }
        assert(names[j] == name);
        lemma_one_occurrence(names, name, j);
    }
}

proof fn lemma_one_occurrence(names: Seq<Seq<char>>, name: Seq<char>, j: int)
    requires
        0 <= j < names.len(),
        names[j] == name,
        forall|k: int| 0 <= k < names.len() && k != j ==> #[trigger] names[k] != name,
    ensures
        occurrences(names, name) == 1,
    decreases names.len(),
{
    let before = names.drop_last();
    if j == names.len() - 1 {
        assert forall|k: int| 0 <= k < before.len() implies #[trigger] before[k] != name by {
            assert(before[k] == names[k]);
        }
        lemma_no_occurrence(before, name);
    } else {
        assert(names[names.len() - 1] != name);
        assert(before[j] == names[j]);
        assert forall|k: int| 0 <= k < before.len() && k != j implies #[trigger] before[k] != name by {
            assert(before[k] == names[k]);
        }
        lemma_one_occurrence(before, name, j);
    }
}

/// Names are counted one by one.
pub proof fn law_occurrences(names: Seq<Seq<char>>, name: Seq<char>, other: Seq<char>)
    ensures
        occurrences(seq![], name) == 0,
        occurrences(names.push(name), name) == occurrences(names, name) + 1,
        other != name ==> occurrences(names.push(other), name) == occurrences(names, name),
{
    assert(names.push(name).drop_last() =~= names);
    assert(names.push(other).drop_last() =~= names);
}

/// The name of a target's file is the prefix, the time, an underscore, the label
/// of the target and the suffix.
pub proof fn law_target_file(
    prefix: Seq<char>,
    stamp: Seq<char>,
    targets: Seq<Seq<char>>,
    i: int,
    suffix: Seq<char>,
)
    ensures
        target_file(prefix, stamp, targets, i, suffix) == prefix + stamp + "_"@ + file_label(
            targets,
            i,
        ) + suffix,
{
}

proof fn lemma_first_v4(found: Seq<IpAddr>)
    ensures
        forall|k: int|
            0 <= k < found.len() && found[k] is V4 && (forall|j: int|
                0 <= j < k ==> !((#[trigger] found[j]) is V4)) ==> first_v4(found) == Some(
                #[trigger] found[k],
            ),
        (forall|j: int| 0 <= j < found.len() ==> !((#[trigger] found[j]) is V4)) ==> first_v4(
            found,
        ) is None,
    decreases found.len(),
{
    if found.len() > 0 {
        let rest = found.skip(1);
        lemma_first_v4(rest);
        assert forall|k: int|
            0 <= k < found.len() && found[k] is V4 && (forall|j: int|
                0 <= j < k ==> !((#[trigger] found[j]) is V4)) implies first_v4(found) == Some(
            #[trigger] found[k],
        ) by {
            if k > 0 {
                assert(!(found[0] is V4));
                assert(rest[k - 1] == found[k]);
                assert forall|j: int| 0 <= j < k - 1 implies !((#[trigger] rest[j]) is V4) by {
                    assert(rest[j] == found[j + 1]);
                }
            }
        }
        if forall|j: int| 0 <= j < found.len() ==> !((#[trigger] found[j]) is V4) {
            assert(!(found[0] is V4));
            assert forall|j: int| 0 <= j < rest.len() implies !((#[trigger] rest[j]) is V4) by {
                assert(rest[j] == found[j + 1]);
            }
        }
    }
}

/// Of the addresses of a name, the first IPv4 address is used, or the first
/// address of all where there is none.
pub proof fn law_preferred_address(found: Seq<IpAddr>, k: int)
    ensures
        found.len() == 0 ==> preferred(found) is None,
        0 <= k < found.len() && found[k] is V4 && (forall|j: int|
            0 <= j < k ==> !((#[trigger] found[j]) is V4)) ==> preferred(found) == Some(found[k]),
        found.len() > 0 && (forall|j: int|
            0 <= j < found.len() ==> !((#[trigger] found[j]) is V4)) ==> preferred(found) == Some(
            found[0],
        ),
{
    lemma_first_v4(found);
}

/// A command is its program and its arguments, and an outcome keeps its error as
/// text.
pub proof fn law_commands_and_outcomes(program: Seq<char>, args: Seq<Seq<char>>, e: String)
    ensures
        words_of(program, args).program == program,
        words_of(program, args).args == args,
        error_text(Ok(())) is Ok,
        error_text(Err(e)) == Err::<(), Seq<char>>(e@),
        error_text_of(None) is None,
        error_text_of(Some(Ok(()))) == Some(Ok::<(), Seq<char>>(())),
        error_text_of(Some(Err(e))) == Some(Err::<(), Seq<char>>(e@)),
{
}

/// The label of a target is numbered by the earlier targets of the same name.
pub proof fn law_file_label_number(targets: Seq<Seq<char>>, i: int)
    requires
        0 <= i < targets.len(),
    ensures
        ({
            let name = file_name_text(targets[i]);
            let earlier = Seq::new(i as nat, |k: int| file_name_text(targets[k]));
            let n = occurrences(earlier, name);
            &&& n == 0 ==> file_label(targets, i) == name
            &&& n > 0 ==> file_label(targets, i) == name + "~"@ + text::decimal_text(n + 1)
        }),
{
    assert(sanitized(targets).take(i) =~= Seq::new(
        i as nat,
        |k: int| file_name_text(targets[k]),
    ));
}

/// The ASCII letters and digits, by their numbers.
pub proof fn law_ascii_letters_and_digits(c: char)
    ensures
        ascii_letter_or_digit(c) <==> 48 <= c as u32 <= 57 || 65 <= c as u32 <= 90 || 97 <= c as u32
            <= 122,
{
}

} // verus!
