//! What installing as a git filter decides: which lines and values are
//! written, and what counts as installed.
use crate::json::text_eq;
use crate::schema::opt_text;
use crate::utils::{join, join_with, path_view};
use gix_attributes::parse::Kind;
use gix_attributes::{AssignmentRef, StateRef};
use vstd::prelude::*;
use vstd::utf8::encode_utf8;
use vstd::string::StringExecFns;

verus! {

/// The attribute line that makes the tool the filter of notebooks.
pub const FILTER_LINE: &'static str = "*.ipynb filter=nbwipers";

/// The attribute line that makes the tool the diff driver of notebooks.
pub const DIFF_LINE: &'static str = "*.ipynb diff=nbwipers";

/// Whether a tool is set up as diff driver and as filter.
#[derive(Debug, Clone, Copy, PartialEq, Eq, Structural)]
pub struct InstallToolStatus {
    pub diff: bool,
    pub filter: bool,
}

/// What is set up of the two tools that strip notebooks.
#[derive(Debug, Clone, Copy, PartialEq, Eq, Structural)]
pub struct InstallStatus {
    pub nbstripout: InstallToolStatus,
    pub nbwipers: InstallToolStatus,
}

impl InstallToolStatus {
    pub open spec fn installed(self) -> bool {
        self.diff && self.filter
    }

    pub open spec fn and_spec(self, rhs: InstallToolStatus) -> InstallToolStatus {
        InstallToolStatus { diff: self.diff && rhs.diff, filter: self.filter && rhs.filter }
    }

    pub open spec fn or_spec(self, rhs: InstallToolStatus) -> InstallToolStatus {
        InstallToolStatus { diff: self.diff || rhs.diff, filter: self.filter || rhs.filter }
    }

    /// Whether the tool is set up as both.
    pub fn is_installed(&self) -> (installed: bool)
        ensures
            installed == self.installed(),
    {
        self.diff && self.filter
    }

    /// What is set up in both.
    pub fn and(self, rhs: InstallToolStatus) -> (both: InstallToolStatus)
        ensures
            both == self.and_spec(rhs),
    {
        InstallToolStatus { diff: self.diff && rhs.diff, filter: self.filter && rhs.filter }
    }

    /// Adds what is set up in `rhs`.
    pub fn or_assign(&mut self, rhs: InstallToolStatus)
        ensures
            *final(self) == old(self).or_spec(rhs),
    {
        self.diff = self.diff || rhs.diff;
        self.filter = self.filter || rhs.filter;
    }
}

impl Default for InstallToolStatus {
    fn default() -> (status: InstallToolStatus)
        ensures
            status == (InstallToolStatus { diff: false, filter: false }),
    {
        InstallToolStatus { diff: false, filter: false }
    }
}

impl InstallStatus {
    pub open spec fn and_spec(self, rhs: InstallStatus) -> InstallStatus {
        InstallStatus {
            nbstripout: self.nbstripout.and_spec(rhs.nbstripout),
            nbwipers: self.nbwipers.and_spec(rhs.nbwipers),
        }
    }

    pub open spec fn or_spec(self, rhs: InstallStatus) -> InstallStatus {
        InstallStatus {
            nbstripout: self.nbstripout.or_spec(rhs.nbstripout),
            nbwipers: self.nbwipers.or_spec(rhs.nbwipers),
        }
    }

    /// What is set up in both.
    pub fn and(self, rhs: InstallStatus) -> (both: InstallStatus)
        ensures
            both == self.and_spec(rhs),
    {
        InstallStatus {
            nbstripout: self.nbstripout.and(rhs.nbstripout),
            nbwipers: self.nbwipers.and(rhs.nbwipers),
        }
    }

    /// Adds what is set up in `rhs`.
    pub fn or_assign(&mut self, rhs: InstallStatus)
        ensures
            *final(self) == old(self).or_spec(rhs),
    {
        self.nbstripout.or_assign(rhs.nbstripout);
        self.nbwipers.or_assign(rhs.nbwipers);
    }

    /// What one assignment `name=value` in an attribute file sets up, on
    /// a line for the pattern `pattern`: nothing unless the pattern is
    /// `*.ipynb`.
    pub open spec fn noted(self, pattern: Seq<char>, name: Seq<char>, value: Seq<char>) -> InstallStatus {
        if pattern != "*.ipynb"@ {
            self
        } else {
            let filter = name == "filter"@;
            let diff = name == "diff"@;
            InstallStatus {
                nbwipers: InstallToolStatus {
                    filter: self.nbwipers.filter || (value == "nbwipers"@ && filter),
                    diff: self.nbwipers.diff || (value == "nbwipers"@ && diff),
                },
                nbstripout: InstallToolStatus {
                    filter: self.nbstripout.filter || (value == "nbstripout"@ && filter),
                    diff: self.nbstripout.diff || (value == "ipynb"@ && diff),
                },
            }
        }
    }

    /// Takes note of one assignment `name=value` in an attribute file, on
    /// a line for the pattern `pattern`.
    pub fn note_assignment(&mut self, pattern: &str, name: &str, value: &str)
        ensures
            *final(self) == old(self).noted(pattern@, name@, value@),
    {
        if !text_eq(pattern, "*.ipynb") {
            return ;
        }
        let filter = text_eq(name, "filter");
        let diff = text_eq(name, "diff");
        if text_eq(value, "nbwipers") {
            self.nbwipers.filter = self.nbwipers.filter || filter;
            self.nbwipers.diff = self.nbwipers.diff || diff;
        }
        if text_eq(value, "ipynb") {
            self.nbstripout.diff = self.nbstripout.diff || diff;
        }
        if text_eq(value, "nbstripout") {
            self.nbstripout.filter = self.nbstripout.filter || filter;
        }
        proof {
            reveal_strlit("nbwipers");
            reveal_strlit("ipynb");
            reveal_strlit("nbstripout");
        }
    }
}

impl Default for InstallStatus {
    fn default() -> (status: InstallStatus)
        ensures
            status == (InstallStatus {
                nbstripout: InstallToolStatus { diff: false, filter: false },
                nbwipers: InstallToolStatus { diff: false, filter: false },
            }),
    {
        InstallStatus {
            nbstripout: InstallToolStatus { diff: false, filter: false },
            nbwipers: InstallToolStatus { diff: false, filter: false },
        }
    }
}

/// What the sections of a git configuration set up: the diff driver needs
/// `textconv`, the filter needs `clean` and `smudge`.
pub fn check_config_sections(has_clean: bool, has_smudge: bool, has_textconv: bool) -> (status:
    InstallToolStatus)
    ensures
        status == (InstallToolStatus { diff: has_textconv, filter: has_clean && has_smudge }),
{
    InstallToolStatus { diff: has_textconv, filter: has_clean && has_smudge }
}

/// Which tools are installed, first `nbstripout`, then `nbwipers`: a
/// tool is where both the attribute files and the git configuration set
/// it up as diff driver and as filter.
pub fn combine_install_status(
    attr_install_status: InstallStatus,
    config_install_status: InstallStatus,
) -> (installed: (bool, bool))
    ensures
        installed.0 == attr_install_status.and_spec(config_install_status).nbstripout.installed(),
        installed.1 == attr_install_status.and_spec(config_install_status).nbwipers.installed(),
{
    let overall_status = attr_install_status.and(config_install_status);
    (overall_status.nbstripout.is_installed(), overall_status.nbwipers.is_installed())
}

/// Whether the check of the installation ends well whatever it finds: it
/// was asked to, or the environment says so.
pub fn check_should_exit_zero(exit_zero: bool, env_set: bool) -> (zero: bool)
    ensures
        zero == (exit_zero || env_set),
{
    if exit_zero {
        exit_zero
    } else {
        env_set
    }
}

/// The attribute lines that a file lacks.
pub open spec fn missing_lines(has_filter: bool, has_diff: bool) -> Seq<Seq<char>> {
    let first: Seq<Seq<char>> = if has_filter {
        Seq::empty()
    } else {
        seq![FILTER_LINE@]
    };
    if has_diff {
        first
    } else {
        first.push(DIFF_LINE@)
    }
}

/// The attribute lines to add to a file, given which it has.
pub fn lines_to_add(has_filter: bool, has_diff: bool) -> (lines: Vec<String>)
    ensures
        path_view(lines@) == missing_lines(has_filter, has_diff),
{
    let mut lines: Vec<String> = Vec::new();
    if !has_filter {
        lines.push(String::from_str(FILTER_LINE));
    }
    if !has_diff {
        lines.push(String::from_str(DIFF_LINE));
    }
    proof {
        assert(path_view(lines@) =~= missing_lines(has_filter, has_diff));
    }
    lines
}

/// Whether lines added to a file need a line break before them: the file
/// is not empty and does not end in one.
pub fn needs_newline(last: Option<u8>) -> (needed: bool)
    ensures
        needed == (last is Some && last != Some(10u8)),
{
    match last {
        None => false,
        Some(b) => b != 10,
    }
}

/// The assignments that do not give the value `nbwipers`, as written.
pub open spec fn kept_assignments(assignments: Seq<(Seq<char>, Option<Seq<char>>)>) -> Seq<
    Seq<char>,
>
    decreases assignments.len(),
{
    if assignments.len() == 0 {
        Seq::empty()
    } else if assignments.last().1 == Some("nbwipers"@) {
        kept_assignments(assignments.drop_last())
    } else {
        kept_assignments(assignments.drop_last()).push(assignments.last().0)
    }
}

/// What uninstalling makes of one attribute line: `None` where the line
/// stays as it is, else the new line, which is empty where nothing is left
/// of it. Only lines for `*.ipynb` in which an assignment gives the value
/// `nbwipers` change: they lose those assignments.
pub open spec fn rewritten(pattern: Seq<char>, assignments: Seq<(Seq<char>, Option<Seq<char>>)>) -> Option<
    Seq<char>,
> {
    let kept = kept_assignments(assignments);
    if pattern != "*.ipynb"@ || kept.len() == assignments.len() {
        None
    } else if join_with(kept, " "@).len() == 0 {
        Some(Seq::empty())
    } else {
        Some(pattern + " "@ + join_with(kept, " "@))
    }
}

pub open spec fn assignments_view(a: Seq<(String, Option<String>)>) -> Seq<
    (Seq<char>, Option<Seq<char>>),
> {
    a.map_values(|p: (String, Option<String>)| (p.0@, opt_text(p.1)))
}

/// What uninstalling makes of one attribute line, given its pattern and
/// its assignments, each as written and with the value it gives.
pub fn rewrite_line(pattern: &str, assignments: &Vec<(String, Option<String>)>) -> (line: Option<
    String,
>)
    ensures
        opt_text(line) == rewritten(pattern@, assignments_view(assignments@)),
{
    let ghost all = assignments_view(assignments@);
    let mut kept: Vec<String> = Vec::new();
    let mut i: usize = 0;
    proof {
        assert(all.take(0) =~= Seq::empty());
        assert(path_view(kept@) =~= Seq::empty());
    }
    while i < assignments.len()
        invariant
            i <= assignments.len(),
            all == assignments_view(assignments@),
            all.len() == assignments.len(),
            kept.len() <= i,
            path_view(kept@) == kept_assignments(all.take(i as int)),
        decreases assignments.len() - i,
    {
        let ghost before = kept@;
        proof {
            assert(all.take(i + 1).drop_last() =~= all.take(i as int));
            assert(all.take(i + 1).last() == all[i as int]);
        }
        let is_nbwipers = match &assignments[i].1 {
            Some(v) => text_eq(v.as_str(), "nbwipers"),
            None => false,
        };
        if !is_nbwipers {
            kept.push(assignments[i].0.clone());
            proof {
                assert(path_view(kept@) =~= path_view(before).push(all[i as int].0));
            }
        }
        i += 1;
    }
    proof {
        assert(all.take(i as int) =~= all);
        assert(path_view(kept@).len() == kept.len());
    }
    if !text_eq(pattern, "*.ipynb") || kept.len() == assignments.len() {
        return None;
    }
    let left = join(kept.as_slice(), " ");
    if left.as_str().is_empty() {
        let none = String::new();
        Some(none)
    } else {
        Some(String::from_str(pattern).concat(" ").concat(left.as_str()))
    }
}

/// The command that git runs to clean a notebook, with the path of the
/// program in quotes.
pub fn clean_command(exe: &str) -> (command: String)
    ensures
        command@ == "\""@ + exe@ + "\" clean -"@,
{
    String::from_str("\"").concat(exe).concat("\" clean -")
}

/// The command that git runs to put back into a notebook what was
/// recorded of it.
pub fn smudge_command(exe: &str) -> (command: String)
    ensures
        command@ == "\""@ + exe@ + "\" smudge %f"@,
{
    String::from_str("\"").concat(exe).concat("\" smudge %f")
}

/// The command that git runs to show a notebook in a diff.
pub fn textconv_command(exe: &str) -> (command: String)
    ensures
        command@ == "\""@ + exe@ + "\" clean -t"@,
{
    String::from_str("\"").concat(exe).concat("\" clean -t")
}

/// One assignment of an attribute line: as it is written, the name of
/// the attribute, and the value where it is given one.
#[derive(Debug, PartialEq, Eq)]
pub struct Assignment {
    pub text: String,
    pub name: String,
    pub value: Option<String>,
}

pub struct AssignmentModel {
    pub text: Seq<char>,
    pub name: Seq<char>,
    pub value: Option<Seq<char>>,
}

impl View for Assignment {
    type V = AssignmentModel;

    open spec fn view(&self) -> AssignmentModel {
        AssignmentModel { text: self.text@, name: self.name@, value: opt_text(self.value) }
    }
}

/// One line of an attribute file: its pattern, unless it defines a macro,
/// and its assignments, `None` for each that is not well formed.
#[derive(Debug, PartialEq, Eq)]
pub struct AttributeLine {
    pub pattern: Option<String>,
    pub assignments: Vec<Option<Assignment>>,
}

pub struct AttributeLineModel {
    pub pattern: Option<Seq<char>>,
    pub assignments: Seq<Option<AssignmentModel>>,
}

pub open spec fn opt_assignment_view(a: Option<Assignment>) -> Option<AssignmentModel> {
    match a {
        Some(a) => Some(a@),
        None => None,
    }
}

impl View for AttributeLine {
    type V = AttributeLineModel;

    open spec fn view(&self) -> AttributeLineModel {
        AttributeLineModel {
            pattern: opt_text(self.pattern),
            assignments: self.assignments@.map_values(|a: Option<Assignment>| opt_assignment_view(a)),
        }
    }
}

pub open spec fn opt_line_view(l: Option<AttributeLine>) -> Option<AttributeLineModel> {
    match l {
        Some(l) => Some(l@),
        None => None,
    }
}

pub open spec fn lines_view(lines: Seq<Option<AttributeLine>>) -> Seq<Option<AttributeLineModel>> {
    lines.map_values(|l: Option<AttributeLine>| opt_line_view(l))
}

/// What `gix_attributes::parse` makes of the bytes of an attribute file:
/// its lines in order, `None` for each that is not well formed.
pub uninterp spec fn parsed_attributes(bytes: Seq<u8>) -> Seq<Option<AttributeLineModel>>;

/// `gix_attributes::parse`, each line and each assignment as plain values.
#[verifier::external_body]
pub(crate) fn parse_attributes(bytes: &[u8]) -> (lines: Vec<Option<AttributeLine>>)
    ensures
        lines_view(lines@) == parsed_attributes(bytes@),
{
    let plain = |a: AssignmentRef| Assignment {
        text: a.to_string(),
        name: a.name.as_str().to_owned(),
        value: match a.state {
            StateRef::Value(v) => Some(v.as_bstr().to_string()),
            StateRef::Set | StateRef::Unset | StateRef::Unspecified => None,
        },
    };
    gix_attributes::parse(bytes).map(|l| l.ok().map(|(k, a, _)| AttributeLine {
        pattern: match k { Kind::Pattern(p) => Some(p.to_string()), Kind::Macro(_) => None },
        assignments: a.map(|x| x.ok().map(plain)).collect(),
    })).collect()
}

/// The status after the first `n` assignments of a line for notebooks
/// were noted: `None` where one of them is not well formed.
pub open spec fn noted_all(
    status: InstallStatus,
    pattern: Seq<char>,
    assignments: Seq<Option<AssignmentModel>>,
    n: nat,
) -> Option<InstallStatus>
    decreases n,
{
    if n == 0 {
        Some(status)
    } else {
        match (noted_all(status, pattern, assignments, (n - 1) as nat), assignments[n - 1]) {
            (Some(s), Some(a)) => Some(
                match a.value {
                    Some(v) => s.noted(pattern, a.name, v),
                    None => s,
                },
            ),
            _ => None,
        }
    }
}

/// What the first `n` lines of an attribute file set up: `None` where a
/// line is not well formed, or an assignment of a line for `*.ipynb`.
pub open spec fn checked_lines(lines: Seq<Option<AttributeLineModel>>, n: nat) -> Option<
    InstallStatus,
>
    decreases n,
{
    if n == 0 {
        Some(InstallStatus {
            nbstripout: InstallToolStatus { diff: false, filter: false },
            nbwipers: InstallToolStatus { diff: false, filter: false },
        })
    } else {
        match (checked_lines(lines, (n - 1) as nat), lines[n - 1]) {
            (Some(s), Some(line)) => if line.pattern == Some("*.ipynb"@) {
                noted_all(s, "*.ipynb"@, line.assignments, line.assignments.len())
            } else {
                Some(s)
            },
            _ => None,
        }
    }
}

/// What an attribute file with these bytes sets up.
pub open spec fn checked_attributes(bytes: Seq<u8>) -> Option<InstallStatus> {
    checked_lines(parsed_attributes(bytes), parsed_attributes(bytes).len())
}

/// The status after the assignments of a line for notebooks were noted:
/// `None` where one of them is not well formed.
fn note_line(status: InstallStatus, line: &AttributeLine) -> (noted: Option<InstallStatus>)
    ensures
        noted == noted_all(status, "*.ipynb"@, line@.assignments, line@.assignments.len()),
{
    let ghost items = line@.assignments;
    let mut now = status;
    let mut k: usize = 0;
    while k < line.assignments.len()
        invariant
            k <= line.assignments.len(),
            items == line@.assignments,
            items.len() == line.assignments.len(),
            noted_all(status, "*.ipynb"@, items, k as nat) == Some(now),
        decreases line.assignments.len() - k,
    {
        assert(items[k as int] == opt_assignment_view(line.assignments[k as int]));
        match &line.assignments[k] {
            Some(a) => {
                if let Some(v) = &a.value {
                    now.note_assignment("*.ipynb", a.name.as_str(), v.as_str());
                }
            },
            None => {
                proof {
                    lemma_noted_all_fail(status, "*.ipynb"@, items, (k + 1) as nat, items.len());
                }
                return None;
            },
        }
        k += 1;
    }
    Some(now)
}

/// What the lines of an attribute file set up: `None` where a line is not
/// well formed, or an assignment of a line for `*.ipynb`.
pub fn check_attribute_lines(lines: &Vec<Option<AttributeLine>>) -> (status: Option<InstallStatus>)
    ensures
        status == checked_lines(lines_view(lines@), lines.len() as nat),
{
    let ghost all = lines_view(lines@);
    let mut status = InstallStatus::default();
    let mut i: usize = 0;
    while i < lines.len()
        invariant
            i <= lines.len(),
            all == lines_view(lines@),
            all.len() == lines.len(),
            checked_lines(all, i as nat) == Some(status),
        decreases lines.len() - i,
    {
        assert(all[i as int] == opt_line_view(lines[i as int]));
        let line = match &lines[i] {
            Some(line) => line,
            None => {
                proof {
                    lemma_checked_lines_fail(all, (i + 1) as nat, lines.len() as nat);
                }
                return None;
            },
        };
        let for_notebooks = match &line.pattern {
            Some(p) => text_eq(p.as_str(), "*.ipynb"),
            None => false,
        };
        if for_notebooks {
            match note_line(status, line) {
                Some(noted) => {
                    status = noted;
                },
                None => {
                    proof {
                        lemma_checked_lines_fail(all, (i + 1) as nat, lines.len() as nat);
                    }
                    return None;
                },
            }
        }
        i += 1;
    }
    Some(status)
}

/// Once an assignment is not well formed, nothing is noted after it.
proof fn lemma_noted_all_fail(
    status: InstallStatus,
    pattern: Seq<char>,
    assignments: Seq<Option<AssignmentModel>>,
    n: nat,
    m: nat,
)
    requires
        n <= m,
        noted_all(status, pattern, assignments, n) is None,
    ensures
        noted_all(status, pattern, assignments, m) is None,
    decreases m,
{
    if n < m {
        lemma_noted_all_fail(status, pattern, assignments, n, (m - 1) as nat);
    }
}

/// Once a line fails, the file fails.
proof fn lemma_checked_lines_fail(lines: Seq<Option<AttributeLineModel>>, n: nat, m: nat)
    requires
        n <= m,
        checked_lines(lines, n) is None,
    ensures
        checked_lines(lines, m) is None,
    decreases m,
{
    if n < m {
        lemma_checked_lines_fail(lines, n, (m - 1) as nat);
    }
}

/// What an attribute file with these bytes sets up: `None` where it is
/// not well formed.
pub fn check_attribute_bytes(bytes: &[u8]) -> (status: Option<InstallStatus>)
    ensures
        status == checked_attributes(bytes@),
{
    let lines = parse_attributes(bytes);
    check_attribute_lines(&lines)
}

/// Why the entries of the tool cannot be taken out of an attribute file.
#[derive(Debug, Clone, Copy, PartialEq, Eq, Structural)]
pub enum UninstallError {
    /// A line that is not empty holds no pattern.
    NoPattern,
    /// A line is not well formed.
    InvalidLine,
    /// An assignment on a line for `*.ipynb` is not well formed.
    InvalidAssignment,
}

/// The assignments as written, each with the value it gives: `None` where
/// one of the first `n` is not well formed.
pub open spec fn pairs_of(assignments: Seq<Option<AssignmentModel>>, n: nat) -> Option<
    Seq<(Seq<char>, Option<Seq<char>>)>,
>
    decreases n,
{
    if n == 0 {
        Some(Seq::empty())
    } else {
        match (pairs_of(assignments, (n - 1) as nat), assignments[n - 1]) {
            (Some(pairs), Some(a)) => Some(pairs.push((a.text, a.value))),
            _ => None,
        }
    }
}

/// What uninstalling makes of one line that is not empty: the line it
/// becomes, which is the line itself unless it is a line for `*.ipynb`
/// that gives the value `nbwipers`, and whether it changed.
pub open spec fn line_uninstalled(line: Seq<char>) -> Result<(Seq<char>, bool), UninstallError> {
    let parsed = parsed_attributes(encode_utf8(line));
    if parsed.len() == 0 {
        Err(UninstallError::NoPattern)
    } else {
        match parsed[0] {
            None => Err(UninstallError::InvalidLine),
            Some(first) => if first.pattern == Some("*.ipynb"@) {
                match pairs_of(first.assignments, first.assignments.len()) {
                    None => Err(UninstallError::InvalidAssignment),
                    Some(pairs) => match rewritten("*.ipynb"@, pairs) {
                        Some(new_line) => Ok((new_line, true)),
                        None => Ok((line, false)),
                    },
                }
            } else {
                Ok((line, false))
            },
        }
    }
}

/// The content of an attribute file after the first `n` of its lines
/// were dealt with, each line that is left followed by a line break, and
/// whether a line changed. Empty lines are left out.
pub open spec fn lines_uninstalled(lines: Seq<Seq<char>>, n: nat) -> Result<
    (Seq<char>, bool),
    UninstallError,
>
    decreases n,
{
    if n == 0 {
        Ok((Seq::empty(), false))
    } else {
        match lines_uninstalled(lines, (n - 1) as nat) {
            Err(e) => Err(e),
            Ok(before) => if lines[n - 1].len() == 0 {
                Ok(before)
            } else {
                match line_uninstalled(lines[n - 1]) {
                    Err(e) => Err(e),
                    Ok(line) => Ok(
                        (
                            if line.0.len() == 0 {
                                before.0
                            } else {
                                before.0 + line.0 + "\n"@
                            },
                            before.1 || line.1,
                        ),
                    ),
                }
            },
        }
    }
}

fn pairs(assignments: &Vec<Option<Assignment>>) -> (out: Option<Vec<(String, Option<String>)>>)
    ensures
        match out {
            Some(p) => Some(assignments_view(p@)) == pairs_of(
                assignments@.map_values(|a: Option<Assignment>| opt_assignment_view(a)),
                assignments.len() as nat,
            ),
            None => pairs_of(
                assignments@.map_values(|a: Option<Assignment>| opt_assignment_view(a)),
                assignments.len() as nat,
            ) is None,
        },
{
    let ghost all = assignments@.map_values(|a: Option<Assignment>| opt_assignment_view(a));
    let mut out: Vec<(String, Option<String>)> = Vec::new();
    let mut k: usize = 0;
    proof {
        assert(assignments_view(out@) =~= Seq::empty());
    }
    while k < assignments.len()
        invariant
            k <= assignments.len(),
            all == assignments@.map_values(|a: Option<Assignment>| opt_assignment_view(a)),
            all.len() == assignments.len(),
            pairs_of(all, k as nat) == Some(assignments_view(out@)),
        decreases assignments.len() - k,
    {
        let ghost before = out@;
        assert(all[k as int] == opt_assignment_view(assignments[k as int]));
        match &assignments[k] {
            Some(a) => {
                out.push((a.text.clone(), a.value.clone()));
                proof {
                    assert(assignments_view(out@) =~= assignments_view(before).push(
                        (a@.text, a@.value),
                    ));
                }
            },
            None => {
                proof {
                    lemma_pairs_fail(all, (k + 1) as nat, all.len());
                }
                return None;
            },
        }
        k += 1;
    }
    Some(out)
}

proof fn lemma_pairs_fail(assignments: Seq<Option<AssignmentModel>>, n: nat, m: nat)
    requires
        n <= m,
        pairs_of(assignments, n) is None,
    ensures
        pairs_of(assignments, m) is None,
    decreases m,
{
    if n < m {
        lemma_pairs_fail(assignments, n, (m - 1) as nat);
    }
}

pub open spec fn line_result_view(r: Result<(String, bool), UninstallError>) -> Result<
    (Seq<char>, bool),
    UninstallError,
> {
    match r {
        Ok(l) => Ok((l.0@, l.1)),
        Err(e) => Err(e),
    }
}

/// What uninstalling makes of one line that is not empty.
pub fn uninstall_line(line: &str) -> (out: Result<(String, bool), UninstallError>)
    ensures
        line_result_view(out) == line_uninstalled(line@),
{
    let parsed = parse_attributes(line.as_bytes());
    if parsed.len() == 0 {
        return Err(UninstallError::NoPattern);
    }
    assert(lines_view(parsed@)[0] == opt_line_view(parsed[0]));
    let first = match &parsed[0] {
        Some(first) => first,
        None => {
            return Err(UninstallError::InvalidLine);
        },
    };
    let for_notebooks = match &first.pattern {
        Some(p) => text_eq(p.as_str(), "*.ipynb"),
        None => false,
    };
    if !for_notebooks {
        return Ok((line.to_owned(), false));
    }
    match pairs(&first.assignments) {
        None => Err(UninstallError::InvalidAssignment),
        Some(p) => match rewrite_line("*.ipynb", &p) {
            Some(new_line) => Ok((new_line, true)),
            None => Ok((line.to_owned(), false)),
        },
    }
}

pub open spec fn content_view(r: Result<Option<String>, UninstallError>) -> Result<
    Option<Seq<char>>,
    UninstallError,
> {
    match r {
        Ok(c) => Ok(opt_text(c)),
        Err(e) => Err(e),
    }
}

/// The new content of an attribute file with these lines, once the
/// entries of the tool are taken out: `None` where nothing changes.
pub fn uninstall_lines(lines: &Vec<String>) -> (content: Result<Option<String>, UninstallError>)
    ensures
        content_view(content) == (match lines_uninstalled(path_view(lines@), lines.len() as nat) {
            Err(e) => Err(e),
            Ok(done) => Ok(
                if done.1 {
                    Some(done.0)
                } else {
                    None
                },
            ),
        }),
{
    let ghost all = path_view(lines@);
    let mut out = String::new();
    let mut to_write = false;
    let mut i: usize = 0;
    while i < lines.len()
        invariant
            i <= lines.len(),
            all == path_view(lines@),
            all.len() == lines.len(),
            lines_uninstalled(all, i as nat) == Ok::<(Seq<char>, bool), UninstallError>(
                (out@, to_write),
            ),
        decreases lines.len() - i,
    {
        assert(all[i as int] == lines[i as int]@);
        if !lines[i].as_str().is_empty() {
            match uninstall_line(lines[i].as_str()) {
                Err(e) => {
                    proof {
                        lemma_uninstall_fail(all, (i + 1) as nat, all.len());
                    }
                    return Err(e);
                },
                Ok(line) => {
                    to_write = to_write || line.1;
                    if !line.0.as_str().is_empty() {
                        out = out.concat(line.0.as_str()).concat("\n");
                    }
                },
            }
        }
        i += 1;
    }
    if to_write {
        Ok(Some(out))
    } else {
        Ok(None)
    }
}

proof fn lemma_uninstall_fail(lines: Seq<Seq<char>>, n: nat, m: nat)
    requires
        n <= m,
        lines_uninstalled(lines, n) is Err,
    ensures
        lines_uninstalled(lines, m) == lines_uninstalled(lines, n),
    decreases m,
{
    if n < m {
        lemma_uninstall_fail(lines, n, (m - 1) as nat);
    }
}

/// One of the first `n` lines is a line for `*.ipynb` that gives the
/// attribute `name` the value `nbwipers`.
pub open spec fn gives_nbwipers(lines: Seq<Option<AttributeLineModel>>, name: Seq<char>) -> bool {
    exists|i: int, k: int|
        0 <= i < lines.len() && (#[trigger] lines[i]) is Some && lines[i]->Some_0.pattern == Some(
            "*.ipynb"@,
        ) && 0 <= k < lines[i]->Some_0.assignments.len() && (
        #[trigger] lines[i]->Some_0.assignments[k]) == Some(
            AssignmentModel {
                text: lines[i]->Some_0.assignments[k]->Some_0.text,
                name,
                value: Some("nbwipers"@),
            },
        )
}

fn line_gives(line: &AttributeLine, name: &str) -> (gives: bool)
    ensures
        gives == exists|k: int|
            0 <= k < line@.assignments.len() && (#[trigger] line@.assignments[k]) == Some(
                AssignmentModel {
                    text: line@.assignments[k]->Some_0.text,
                    name: name@,
                    value: Some("nbwipers"@),
                },
            ),
{
    let ghost items = line@.assignments;
    let mut k: usize = 0;
    while k < line.assignments.len()
        invariant
            k <= line.assignments.len(),
            items == line@.assignments,
            items.len() == line.assignments.len(),
            forall|j: int|
                0 <= j < k ==> (#[trigger] items[j]) != Some(
                    AssignmentModel {
                        text: items[j]->Some_0.text,
                        name: name@,
                        value: Some("nbwipers"@),
                    },
                ),
        decreases line.assignments.len() - k,
    {
        assert(items[k as int] == opt_assignment_view(line.assignments[k as int]));
        let hit = match &line.assignments[k] {
            Some(a) => text_eq(a.name.as_str(), name) && match &a.value {
                Some(v) => text_eq(v.as_str(), "nbwipers"),
                None => false,
            },
            None => false,
        };
        if hit {
            return true;
        }
        k += 1;
    }
    false
}

/// Whether one of the lines is a line for `*.ipynb` that gives the
/// attribute `name` the value `nbwipers`. Lines and assignments that are
/// not well formed are passed over.
pub fn lines_give(lines: &Vec<Option<AttributeLine>>, name: &str) -> (gives: bool)
    ensures
        gives == gives_nbwipers(lines_view(lines@), name@),
{
    let ghost all = lines_view(lines@);
    let mut i: usize = 0;
    while i < lines.len()
        invariant
            i <= lines.len(),
            all == lines_view(lines@),
            all.len() == lines.len(),
            forall|j: int, k: int|
                0 <= j < i && (#[trigger] all[j]) is Some && all[j]->Some_0.pattern == Some(
                    "*.ipynb"@,
                ) && 0 <= k < all[j]->Some_0.assignments.len() ==> (
                #[trigger] all[j]->Some_0.assignments[k]) != Some(
                    AssignmentModel {
                        text: all[j]->Some_0.assignments[k]->Some_0.text,
                        name: name@,
                        value: Some("nbwipers"@),
                    },
                ),
        decreases lines.len() - i,
    {
        assert(all[i as int] == opt_line_view(lines[i as int]));
        let hit = match &lines[i] {
            Some(line) => {
                let for_notebooks = match &line.pattern {
                    Some(p) => text_eq(p.as_str(), "*.ipynb"),
                    None => false,
                };
                for_notebooks && line_gives(line, name)
            },
            None => false,
        };
        if hit {
            proof {
                let found = all[i as int]->Some_0;
                let k = choose|k: int|
                    0 <= k < found.assignments.len() && (#[trigger] found.assignments[k]) == Some(
                        AssignmentModel {
                            text: found.assignments[k]->Some_0.text,
                            name: name@,
                            value: Some("nbwipers"@),
                        },
                    );
                assert(all[i as int] is Some && all[i as int]->Some_0.assignments[k] == Some(
                    AssignmentModel {
                        text: all[i as int]->Some_0.assignments[k]->Some_0.text,
                        name: name@,
                        value: Some("nbwipers"@),
                    },
                ));
            }
            return true;
        }
        i += 1;
    }
    false
}

/// The attribute lines to add to a file with these bytes.
pub fn missing_attribute_lines(bytes: &[u8]) -> (lines: Vec<String>)
    ensures
        path_view(lines@) == missing_lines(
            gives_nbwipers(parsed_attributes(bytes@), "filter"@),
            gives_nbwipers(parsed_attributes(bytes@), "diff"@),
        ),
{
    let parsed = parse_attributes(bytes);
    lines_to_add(lines_give(&parsed, "filter"), lines_give(&parsed, "diff"))
}

} // verus!
