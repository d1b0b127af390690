//! Why a path is or is not in the output, for the content and for the
//! tree. Looking at the file system is left to the caller: a step of the
//! decision either settles the report or names the one fact it needs next.

use vstd::prelude::*;
use crate::config::AppConfig;
use crate::filter::{filter_model, filter_verdict, FilterDecision, FilterError, FilterVerdict};
use crate::path::{components, is_absolute, join_path, join_path_of, same_components, strip_prefix, strip_prefix_of};
use crate::scan::{content_filter, opt_text_of, tree_filter, tree_patterns, SkipReason};
use crate::text::{decimal, push_decimal, push_str};

verus! {

/// The decision for one side (content or tree) of a path.
#[derive(Debug, PartialEq, Eq)]
pub enum ExplainDecision {
    Included,
    IncludedWithLossyUtf8,
    NotFound,
    OutsideRoot,
    OperationalOutput,
    NotContentFile,
    DisabledByNoTree,
    BlockedByBlacklist { rule: String },
    BlockedByIgnore,
    BlockedByExclude { rule: String },
    NotIncludedByInclude { rule: String },
    SkippedByMaxSize { max_kib: usize, actual_bytes: u64 },
    SkippedBinary,
    Unreadable { error: String },
}

/// A decision by the text of its rule or error.
pub enum Verdict {
    Included,
    IncludedWithLossyUtf8,
    NotFound,
    OutsideRoot,
    OperationalOutput,
    NotContentFile,
    DisabledByNoTree,
    BlockedByBlacklist(Seq<char>),
    BlockedByIgnore,
    BlockedByExclude(Seq<char>),
    NotIncludedByInclude(Seq<char>),
    SkippedByMaxSize(usize, u64),
    SkippedBinary,
    Unreadable(Seq<char>),
}

impl View for ExplainDecision {
    type V = Verdict;

    open spec fn view(&self) -> Verdict {
        match self {
            ExplainDecision::Included => Verdict::Included,
            ExplainDecision::IncludedWithLossyUtf8 => Verdict::IncludedWithLossyUtf8,
            ExplainDecision::NotFound => Verdict::NotFound,
            ExplainDecision::OutsideRoot => Verdict::OutsideRoot,
            ExplainDecision::OperationalOutput => Verdict::OperationalOutput,
            ExplainDecision::NotContentFile => Verdict::NotContentFile,
            ExplainDecision::DisabledByNoTree => Verdict::DisabledByNoTree,
            ExplainDecision::BlockedByBlacklist { rule } => Verdict::BlockedByBlacklist(rule@),
            ExplainDecision::BlockedByIgnore => Verdict::BlockedByIgnore,
            ExplainDecision::BlockedByExclude { rule } => Verdict::BlockedByExclude(rule@),
            ExplainDecision::NotIncludedByInclude { rule } => Verdict::NotIncludedByInclude(rule@),
            ExplainDecision::SkippedByMaxSize { max_kib, actual_bytes } => Verdict::SkippedByMaxSize(
                *max_kib,
                *actual_bytes,
            ),
            ExplainDecision::SkippedBinary => Verdict::SkippedBinary,
            ExplainDecision::Unreadable { error } => Verdict::Unreadable(error@),
        }
    }
}

/// One side of a report.
#[derive(Debug, PartialEq, Eq)]
pub struct ExplainSection {
    pub decision: ExplainDecision,
}

/// The report for one path: the path as given, and the content and tree
/// decisions (no tree decision for a path that does not exist).
#[derive(Debug, PartialEq, Eq)]
pub struct ExplainReport {
    pub path: String,
    pub content: Option<ExplainSection>,
    pub tree: Option<ExplainSection>,
}

/// What reading a file gave.
#[derive(Debug, PartialEq, Eq)]
pub enum Inspection {
    /// The content would be attached; `lossy` where invalid UTF-8 was
    /// replaced.
    Attached { lossy: bool },
    /// The content would not be attached.
    Skipped(SkipReason),
}

/// A fact about the file system that a decision needs, with the path it
/// is about.
#[derive(Debug, PartialEq, Eq)]
pub enum Probe {
    /// Whether the path exists.
    Exists(String),
    /// The canonical form of the path.
    Canonicalize(String),
    /// Whether the path is the current output file.
    SameAsOutput(String),
    /// Whether the path itself is a symbolic link.
    IsSymlink(String),
    /// Whether the standard ignore filters hide the path.
    Ignored(String),
    /// Whether the path is a regular file.
    IsFile(String),
    /// What reading the file gives.
    Inspect(String),
}

/// A probe by the text of its path.
pub enum ProbeModel {
    Exists(Seq<char>),
    Canonicalize(Seq<char>),
    SameAsOutput(Seq<char>),
    IsSymlink(Seq<char>),
    Ignored(Seq<char>),
    IsFile(Seq<char>),
    Inspect(Seq<char>),
}

impl View for Probe {
    type V = ProbeModel;

    open spec fn view(&self) -> ProbeModel {
        match self {
            Probe::Exists(p) => ProbeModel::Exists(p@),
            Probe::Canonicalize(p) => ProbeModel::Canonicalize(p@),
            Probe::SameAsOutput(p) => ProbeModel::SameAsOutput(p@),
            Probe::IsSymlink(p) => ProbeModel::IsSymlink(p@),
            Probe::Ignored(p) => ProbeModel::Ignored(p@),
            Probe::IsFile(p) => ProbeModel::IsFile(p@),
            Probe::Inspect(p) => ProbeModel::Inspect(p@),
        }
    }
}

/// The facts known so far about one path; `None` where not yet looked at.
#[derive(Debug, PartialEq, Eq)]
pub struct PathFacts {
    /// The canonical scan root.
    pub root: String,
    pub exists: Option<bool>,
    pub canonical: Option<String>,
    pub is_output: Option<bool>,
    pub is_symlink: Option<bool>,
    pub ignored: Option<bool>,
    pub is_file: Option<bool>,
    pub inspection: Option<Inspection>,
}

impl PathFacts {
    /// No fact known yet about a path below `root`.
    pub fn new(root: String) -> (r: PathFacts)
        ensures
            r.root == root,
            r.exists is None,
            r.canonical is None,
            r.is_output is None,
            r.is_symlink is None,
            r.ignored is None,
            r.is_file is None,
            r.inspection is None,
    {
        PathFacts {
            root,
            exists: None,
            canonical: None,
            is_output: None,
            is_symlink: None,
            ignored: None,
            is_file: None,
            inspection: None,
        }
    }
}

/// Where one side of a decision stands.
pub enum Outcome {
    Decided(Verdict),
    Need(ProbeModel),
    Fails(Seq<char>),
}

/// The decision that a filter's verdict gives, `None` where it keeps the path.
pub open spec fn from_filter(v: FilterVerdict) -> Option<Verdict> {
    match v {
        FilterVerdict::Included => None,
        FilterVerdict::Blacklisted(r) => Some(Verdict::BlockedByBlacklist(r)),
        FilterVerdict::Excluded(r) => Some(Verdict::BlockedByExclude(r)),
        FilterVerdict::NotIncluded(r) => Some(Verdict::NotIncludedByInclude(r)),
    }
}

/// Whether the ignore filters hide `p`: never for the root itself, else as
/// the facts say.
pub open spec fn ignored_fact(root: Seq<char>, p: Seq<char>, f: PathFacts) -> Option<bool> {
    if components(p) == components(root) {
        Some(false)
    } else {
        f.ignored
    }
}

/// The decision that a file's inspection gives.
pub open spec fn from_inspection(i: Inspection) -> Verdict {
    match i {
        Inspection::Attached { lossy } => if lossy {
            Verdict::IncludedWithLossyUtf8
        } else {
            Verdict::Included
        },
        Inspection::Skipped(SkipReason::TooLarge { max_kib, actual_bytes }) => Verdict::SkippedByMaxSize(
            max_kib,
            actual_bytes,
        ),
        Inspection::Skipped(SkipReason::Binary) => Verdict::SkippedBinary,
        Inspection::Skipped(SkipReason::Unreadable(e)) => Verdict::Unreadable(e@),
    }
}

/// The content decision for the file `full` at relative path `rel`: the
/// blacklist first, then the ignore filters (unless off), then the
/// exclude and inclusion patterns, then whether it is a file at all, then
/// what reading it gives.
pub open spec fn content_outcome(
    a: AppConfig,
    root: Seq<char>,
    full: Seq<char>,
    rel: Seq<char>,
    f: PathFacts,
) -> Outcome {
    match filter_model(opt_text_of(&a.includes), opt_text_of(&a.exclude), a.no_blacklist) {
        Err(p) => Outcome::Fails(p),
        Ok(m) => {
            let fv = filter_verdict(m, rel);
            if fv is Blacklisted {
                Outcome::Decided(from_filter(fv)->0)
            } else if !a.no_ignore && ignored_fact(root, full, f) is None {
                Outcome::Need(ProbeModel::Ignored(full))
            } else if !a.no_ignore && ignored_fact(root, full, f) == Some(true) {
                Outcome::Decided(Verdict::BlockedByIgnore)
            } else if from_filter(fv) is Some {
                Outcome::Decided(from_filter(fv)->0)
            } else {
                match f.is_file {
                    None => Outcome::Need(ProbeModel::IsFile(full)),
                    Some(false) => Outcome::Decided(Verdict::NotContentFile),
                    Some(true) => match f.inspection {
                        None => Outcome::Need(ProbeModel::Inspect(full)),
                        Some(i) => Outcome::Decided(from_inspection(i)),
                    },
                }
            }
        },
    }
}

/// The tree decision for the path `p` at relative path `rel`: nothing with
/// `--no-tree`; else the blacklist, the ignore filters (unless off for the
/// tree) and the tree's patterns; size and content play no part.
pub open spec fn tree_outcome(
    a: AppConfig,
    root: Seq<char>,
    p: Seq<char>,
    rel: Seq<char>,
    f: PathFacts,
) -> Outcome {
    if a.no_tree {
        Outcome::Decided(Verdict::DisabledByNoTree)
    } else {
        match filter_model(
            tree_patterns(&a.tree_include, &a.includes),
            tree_patterns(&a.tree_exclude, &a.exclude),
            a.no_blacklist,
        ) {
            Err(e) => Outcome::Fails(e),
            Ok(m) => {
                let fv = filter_verdict(m, rel);
                if fv is Blacklisted {
                    Outcome::Decided(from_filter(fv)->0)
                } else if !a.tree_no_ignore && ignored_fact(root, p, f) is None {
                    Outcome::Need(ProbeModel::Ignored(p))
                } else if !a.tree_no_ignore && ignored_fact(root, p, f) == Some(true) {
                    Outcome::Decided(Verdict::BlockedByIgnore)
                } else if from_filter(fv) is Some {
                    Outcome::Decided(from_filter(fv)->0)
                } else {
                    Outcome::Decided(Verdict::Included)
                }
            },
        }
    }
}

/// Where the report for a path stands.
pub enum ReportOutcome {
    Report(Option<Verdict>, Option<Verdict>),
    Need(ProbeModel),
    Fails(Seq<char>),
}

/// Combines the content and tree decisions: the content is settled first.
pub open spec fn both(c: Outcome, t: Outcome) -> ReportOutcome {
    match c {
        Outcome::Need(p) => ReportOutcome::Need(p),
        Outcome::Fails(e) => ReportOutcome::Fails(e),
        Outcome::Decided(cv) => match t {
            Outcome::Need(p) => ReportOutcome::Need(p),
            Outcome::Fails(e) => ReportOutcome::Fails(e),
            Outcome::Decided(tv) => ReportOutcome::Report(Some(cv), Some(tv)),
        },
    }
}

/// The path that `input` names: itself where absolute, else below the root.
pub open spec fn input_path(root: Seq<char>, input: Seq<char>) -> Seq<char> {
    if is_absolute(input) {
        input
    } else {
        join_path(root, input)
    }
}

/// The report for `input`: a missing path is only `NotFound`; the output
/// file is operational output on both sides; a path whose canonical form
/// lies outside the root is outside the root, except that a link below the
/// root still has a tree decision; otherwise both sides are decided for
/// its path relative to the root (the link's own path for a link).
pub open spec fn path_outcome(a: AppConfig, input: Seq<char>, f: PathFacts) -> ReportOutcome {
    let root = f.root@;
    let ip = input_path(root, input);
    match f.exists {
        None => ReportOutcome::Need(ProbeModel::Exists(ip)),
        Some(false) => ReportOutcome::Report(Some(Verdict::NotFound), None),
        Some(true) => match f.canonical {
            None => ReportOutcome::Need(ProbeModel::Canonicalize(ip)),
            Some(full_s) => {
                let full = full_s@;
                match f.is_output {
                    None => ReportOutcome::Need(ProbeModel::SameAsOutput(ip)),
                    Some(true) => ReportOutcome::Report(
                        Some(Verdict::OperationalOutput),
                        Some(Verdict::OperationalOutput),
                    ),
                    Some(false) => match f.is_symlink {
                        None => ReportOutcome::Need(ProbeModel::IsSymlink(ip)),
                        Some(link) => match strip_prefix(full, root) {
                            None => if link && strip_prefix(ip, root) is Some {
                                both(
                                    Outcome::Decided(Verdict::OutsideRoot),
                                    tree_outcome(a, root, ip, strip_prefix(ip, root)->0, f),
                                )
                            } else {
                                ReportOutcome::Report(
                                    Some(Verdict::OutsideRoot),
                                    Some(Verdict::OutsideRoot),
                                )
                            },
                            Some(crel) => {
                                let rel = if link && strip_prefix(ip, root) is Some {
                                    strip_prefix(ip, root)->0
                                } else {
                                    crel
                                };
                                both(
                                    content_outcome(a, root, full, rel, f),
                                    tree_outcome(a, root, full, rel, f),
                                )
                            },
                        },
                    },
                }
            },
        },
    }
}

/// One step of explaining a path.
#[derive(Debug, PartialEq, Eq)]
pub enum ExplainStep {
    /// The report is settled.
    Done(ExplainReport),
    /// This fact is needed next.
    Ask(Probe),
}

/// The section of a decision, where there is one.
pub open spec fn section_verdict(s: Option<ExplainSection>) -> Option<Verdict> {
    match s {
        Some(sec) => Some(sec.decision@),
        None => None,
    }
}

/// A step's result matches where the report stands.
pub open spec fn step_matches(r: Result<ExplainStep, FilterError>, input: Seq<char>, o: ReportOutcome) -> bool {
    match (r, o) {
        (Ok(ExplainStep::Done(rep)), ReportOutcome::Report(c, t)) => rep.path@ == input
            && section_verdict(rep.content) == c && section_verdict(rep.tree) == t,
        (Ok(ExplainStep::Ask(p)), ReportOutcome::Need(m)) => p@ == m,
        (Err(FilterError::InvalidGlob { pattern }), ReportOutcome::Fails(e)) => pattern@ == e,
        _ => false,
    }
}

/// A side's result matches where that side stands.
pub open spec fn side_matches(r: Result<Result<ExplainDecision, Probe>, FilterError>, o: Outcome) -> bool {
    match (r, o) {
        (Ok(Ok(d)), Outcome::Decided(v)) => d@ == v,
        (Ok(Err(p)), Outcome::Need(m)) => p@ == m,
        (Err(FilterError::InvalidGlob { pattern }), Outcome::Fails(e)) => pattern@ == e,
        _ => false,
    }
}

fn decision_from_filter(d: FilterDecision) -> (r: Option<ExplainDecision>)
    ensures
        match r {
            Some(e) => from_filter(d@) == Some(e@),
            None => from_filter(d@) is None,
        },
{
    match d {
        FilterDecision::Included => None,
        FilterDecision::BlockedByBlacklist { rule } => Some(
            ExplainDecision::BlockedByBlacklist { rule },
        ),
        FilterDecision::BlockedByExclude { rule } => Some(ExplainDecision::BlockedByExclude { rule }),
        FilterDecision::NotIncludedByInclude { rule } => Some(
            ExplainDecision::NotIncludedByInclude { rule },
        ),
    }
}

fn ignored_of(root: &str, p: &str, f: &PathFacts) -> (r: Option<bool>)
    ensures
        r == ignored_fact(root@, p@, *f),
{
    if same_components(p, root) {
        Some(false)
    } else {
        f.ignored
    }
}

fn decision_from_inspection(i: &Inspection) -> (r: ExplainDecision)
    ensures
        r@ == from_inspection(*i),
{
    match i {
        Inspection::Attached { lossy } => if *lossy {
            ExplainDecision::IncludedWithLossyUtf8
        } else {
            ExplainDecision::Included
        },
        Inspection::Skipped(SkipReason::TooLarge { max_kib, actual_bytes }) => {
            ExplainDecision::SkippedByMaxSize { max_kib: *max_kib, actual_bytes: *actual_bytes }
        },
        Inspection::Skipped(SkipReason::Binary) => ExplainDecision::SkippedBinary,
        Inspection::Skipped(SkipReason::Unreadable(e)) => ExplainDecision::Unreadable {
            error: e.clone(),
        },
    }
}

/// The content side, as far as the facts go.
pub fn explain_content(args: &AppConfig, root: &str, full: &str, rel: &str, f: &PathFacts) -> (r:
    Result<Result<ExplainDecision, Probe>, FilterError>)
    ensures
        side_matches(r, content_outcome(*args, root@, full@, rel@, *f)),
{
    let filter = match content_filter(args) {
        Ok(filter) => filter,
        Err(e) => return Err(e),
    };
    let fd = filter.explain(rel);
    if let FilterDecision::BlockedByBlacklist { rule } = fd {
        return Ok(Ok(ExplainDecision::BlockedByBlacklist { rule }));
    }
    if !args.no_ignore {
        match ignored_of(root, full, f) {
            None => return Ok(Err(Probe::Ignored(full.to_owned()))),
            Some(true) => return Ok(Ok(ExplainDecision::BlockedByIgnore)),
            Some(false) => {},
        }
    }
    if let Some(d) = decision_from_filter(fd) {
        return Ok(Ok(d));
    }
    match f.is_file {
        None => Ok(Err(Probe::IsFile(full.to_owned()))),
        Some(false) => Ok(Ok(ExplainDecision::NotContentFile)),
        Some(true) => match &f.inspection {
            None => Ok(Err(Probe::Inspect(full.to_owned()))),
            Some(i) => Ok(Ok(decision_from_inspection(i))),
        },
    }
}

/// The tree side, as far as the facts go.
pub fn explain_tree(args: &AppConfig, root: &str, p: &str, rel: &str, f: &PathFacts) -> (r: Result<
    Result<ExplainDecision, Probe>,
    FilterError,
>)
    ensures
        side_matches(r, tree_outcome(*args, root@, p@, rel@, *f)),
{
    if args.no_tree {
        return Ok(Ok(ExplainDecision::DisabledByNoTree));
    }
    let filter = match tree_filter(args) {
        Ok(filter) => filter,
        Err(e) => return Err(e),
    };
    let fd = filter.explain(rel);
    if let FilterDecision::BlockedByBlacklist { rule } = fd {
        return Ok(Ok(ExplainDecision::BlockedByBlacklist { rule }));
    }
    if !args.tree_no_ignore {
        match ignored_of(root, p, f) {
            None => return Ok(Err(Probe::Ignored(p.to_owned()))),
            Some(true) => return Ok(Ok(ExplainDecision::BlockedByIgnore)),
            Some(false) => {},
        }
    }
    if let Some(d) = decision_from_filter(fd) {
        return Ok(Ok(d));
    }
    Ok(Ok(ExplainDecision::Included))
}

fn report_of(
    input: &str,
    content: Result<Result<ExplainDecision, Probe>, FilterError>,
    tree: Result<Result<ExplainDecision, Probe>, FilterError>,
) -> (r: Result<ExplainStep, FilterError>)
    ensures
        forall|c: Outcome, t: Outcome|
            side_matches(content, c) && side_matches(tree, t) ==> step_matches(
                r,
                input@,
                both(c, t),
            ),
{
    match content {
        Err(e) => Err(e),
        Ok(Err(p)) => Ok(ExplainStep::Ask(p)),
        Ok(Ok(cd)) => match tree {
            Err(e) => Err(e),
            Ok(Err(p)) => Ok(ExplainStep::Ask(p)),
            Ok(Ok(td)) => Ok(
                ExplainStep::Done(
                    ExplainReport {
                        path: input.to_owned(),
                        content: Some(ExplainSection { decision: cd }),
                        tree: Some(ExplainSection { decision: td }),
                    },
                ),
            ),
        },
    }
}

fn done(input: &str, content: Option<ExplainDecision>, tree: Option<ExplainDecision>) -> (r:
    Result<ExplainStep, FilterError>)
    ensures
        r matches Ok(ExplainStep::Done(rep)) && rep.path@ == input@ && section_verdict(rep.content)
            == (match content {
            Some(d) => Some(d@),
            None => None,
        }) && section_verdict(rep.tree) == (match tree {
            Some(d) => Some(d@),
            None => None,
        }),
{
    Ok(
        ExplainStep::Done(
            ExplainReport {
                path: input.to_owned(),
                content: match content {
                    Some(d) => Some(ExplainSection { decision: d }),
                    None => None,
                },
                tree: match tree {
                    Some(d) => Some(ExplainSection { decision: d }),
                    None => None,
                },
            },
        ),
    )
}

/// One step of explaining `input`: the report where the
/// facts settle it, else the next fact needed. Run it again with that fact
/// added until it is done.
pub fn explain_step(args: &AppConfig, input: &str, facts: &PathFacts) -> (r: Result<
    ExplainStep,
    FilterError,
>)
    ensures
        step_matches(r, input@, path_outcome(*args, input@, *facts)),
{
    let root = facts.root.as_str();
    let ip = join_path_of(root, input);
    match facts.exists {
        None => return Ok(ExplainStep::Ask(Probe::Exists(ip))),
        Some(false) => return done(input, Some(ExplainDecision::NotFound), None),
        Some(true) => {},
    }
    let full = match &facts.canonical {
        None => return Ok(ExplainStep::Ask(Probe::Canonicalize(ip))),
        Some(c) => c.as_str(),
    };
    match facts.is_output {
        None => return Ok(ExplainStep::Ask(Probe::SameAsOutput(ip))),
        Some(true) => return done(
            input,
            Some(ExplainDecision::OperationalOutput),
            Some(ExplainDecision::OperationalOutput),
        ),
        Some(false) => {},
    }
    let link = match facts.is_symlink {
        None => return Ok(ExplainStep::Ask(Probe::IsSymlink(ip))),
        Some(l) => l,
    };
    let link_rel = if link {
        strip_prefix_of(&ip, root)
    } else {
        None
    };
    match strip_prefix_of(full, root) {
        None => match link_rel {
            Some(rel) => {
                let t = explain_tree(args, root, &ip, &rel, facts);
                let c: Result<Result<ExplainDecision, Probe>, FilterError> = Ok(
                    Ok(ExplainDecision::OutsideRoot),
                );
                assert(side_matches(c, Outcome::Decided(Verdict::OutsideRoot)));
                report_of(input, c, t)
            },
            None => done(
                input,
                Some(ExplainDecision::OutsideRoot),
                Some(ExplainDecision::OutsideRoot),
            ),
        },
        Some(crel) => {
            let rel = match link_rel {
                Some(r) => r,
                None => crel,
            };
            let c = explain_content(args, root, full, &rel, facts);
            let t = explain_tree(args, root, full, &rel, facts);
            report_of(input, c, t)
        },
    }
}

/// Where explaining a list of paths stands: every report, or the first
/// path whose report needs a fact, with that fact.
#[derive(Debug, PartialEq, Eq)]
pub enum PathsStep {
    Done(Vec<ExplainReport>),
    Ask(usize, Probe),
}

/// Whether a report is the one that the facts settle for `input`.
pub open spec fn settled(a: AppConfig, input: Seq<char>, f: PathFacts, rep: ExplainReport) -> bool {
    step_matches(Ok(ExplainStep::Done(rep)), input, path_outcome(a, input, f))
}

/// One step of explaining several paths, each with the
/// facts known of it: the reports in order once every path is settled;
/// else the first path that needs a fact, or the pattern that failed
/// there. Paths after the first unsettled one are not looked at.
pub fn explain_paths(args: &AppConfig, paths: &Vec<String>, facts: &Vec<PathFacts>) -> (r: Result<
    PathsStep,
    FilterError,
>)
    requires
        paths.len() == facts.len(),
    ensures
        match r {
            Ok(PathsStep::Done(reps)) => reps.len() == paths.len() && forall|i: int|
                0 <= i < paths.len() ==> settled(*args, paths[i]@, facts[i], #[trigger] reps[i]),
            Ok(PathsStep::Ask(i, p)) => i < paths.len() && (forall|j: int|
                0 <= j < i ==> #[trigger] path_outcome(*args, paths[j]@, facts[j]) is Report)
                && path_outcome(*args, paths[i as int]@, facts[i as int]) == ReportOutcome::Need(
                p@,
            ),
            Err(FilterError::InvalidGlob { pattern }) => exists|i: int|
                0 <= i < paths.len() && (forall|j: int|
                    0 <= j < i ==> #[trigger] path_outcome(*args, paths[j]@, facts[j]) is Report)
                    && path_outcome(*args, paths[i]@, facts[i]) == ReportOutcome::Fails(pattern@),
        },
{
    let mut reps: Vec<ExplainReport> = Vec::new();
    let mut i: usize = 0;
    while i < paths.len()
        invariant
            i <= paths.len(),
            paths.len() == facts.len(),
            reps.len() == i,
            forall|j: int| 0 <= j < i ==> settled(*args, paths[j]@, facts[j], #[trigger] reps[j]),
            forall|j: int| 0 <= j < i ==> #[trigger] path_outcome(*args, paths[j]@, facts[j]) is Report,
        decreases paths.len() - i,
    {
        match explain_step(args, paths[i].as_str(), &facts[i]) {
            Err(e) => {
                assert(path_outcome(*args, paths[i as int]@, facts[i as int]) is Fails);
                return Err(e);
            },
            Ok(ExplainStep::Ask(p)) => {
                return Ok(PathsStep::Ask(i, p));
            },
            Ok(ExplainStep::Done(rep)) => {
                proof {
                    assert(settled(*args, paths[i as int]@, facts[i as int], rep));
                }
                reps.push(rep);
            },
        }
        i = i + 1;
    }
    Ok(PathsStep::Done(reps))
}

/// The words for a decision.
pub open spec fn verdict_text(v: Verdict) -> Seq<char> {
    match v {
        Verdict::Included => "included"@,
        Verdict::IncludedWithLossyUtf8 => "included with lossy UTF-8 replacement characters"@,
        Verdict::NotFound => "not found"@,
        Verdict::OutsideRoot => "outside the scan root"@,
        Verdict::OperationalOutput => "excluded because it is the current output file"@,
        Verdict::NotContentFile => "not a content file (directory or special path)"@,
        Verdict::DisabledByNoTree => "disabled by --no-tree"@,
        Verdict::BlockedByBlacklist(_) => "blocked by blacklist"@,
        Verdict::BlockedByIgnore => "blocked by ignore filters"@,
        Verdict::BlockedByExclude(_) => "blocked by exclude"@,
        Verdict::NotIncludedByInclude(_) => "not included by include"@,
        Verdict::SkippedByMaxSize(_, _) => "skipped by max-size"@,
        Verdict::SkippedBinary => "skipped because binary file"@,
        Verdict::Unreadable(_) => "skipped because unreadable"@,
    }
}

/// Which kind of decision a verdict is, whatever its rule or numbers.
pub open spec fn verdict_kind(v: Verdict) -> int {
    match v {
        Verdict::Included => 0,
        Verdict::IncludedWithLossyUtf8 => 1,
        Verdict::NotFound => 2,
        Verdict::OutsideRoot => 3,
        Verdict::OperationalOutput => 4,
        Verdict::NotContentFile => 5,
        Verdict::DisabledByNoTree => 6,
        Verdict::BlockedByBlacklist(_) => 7,
        Verdict::BlockedByIgnore => 8,
        Verdict::BlockedByExclude(_) => 9,
        Verdict::NotIncludedByInclude(_) => 10,
        Verdict::SkippedByMaxSize(_, _) => 11,
        Verdict::SkippedBinary => 12,
        Verdict::Unreadable(_) => 13,
    }
}

/// Two decisions are put in the same words exactly when they are the same
/// kind of decision: the words tell every kind apart.
pub proof fn law_words_tell_decisions_apart(a: Verdict, b: Verdict)
    ensures
        verdict_text(a) == verdict_text(b) <==> verdict_kind(a) == verdict_kind(b),
{
    reveal_strlit("included");
    reveal_strlit("included with lossy UTF-8 replacement characters");
    reveal_strlit("not found");
    reveal_strlit("outside the scan root");
    reveal_strlit("excluded because it is the current output file");
    reveal_strlit("not a content file (directory or special path)");
    reveal_strlit("disabled by --no-tree");
    reveal_strlit("blocked by blacklist");
    reveal_strlit("blocked by ignore filters");
    reveal_strlit("blocked by exclude");
    reveal_strlit("not included by include");
    reveal_strlit("skipped by max-size");
    reveal_strlit("skipped because binary file");
    reveal_strlit("skipped because unreadable");
    let ta = verdict_text(a);
    let tb = verdict_text(b);
    if verdict_kind(a) != verdict_kind(b) && ta.len() == tb.len() {
        if ta[0] == tb[0] {
            if ta[8] == tb[8] {
                assert(ta[11] != tb[11]);
            }
        }
    }
}

/// The words for a decision.
pub fn decision_text(d: &ExplainDecision) -> (r: &'static str)
    ensures
        r@ == verdict_text(d@),
{
    match d {
        ExplainDecision::Included => "included",
        ExplainDecision::IncludedWithLossyUtf8 => "included with lossy UTF-8 replacement characters",
        ExplainDecision::NotFound => "not found",
        ExplainDecision::OutsideRoot => "outside the scan root",
        ExplainDecision::OperationalOutput => "excluded because it is the current output file",
        ExplainDecision::NotContentFile => "not a content file (directory or special path)",
        ExplainDecision::DisabledByNoTree => "disabled by --no-tree",
        ExplainDecision::BlockedByBlacklist { .. } => "blocked by blacklist",
        ExplainDecision::BlockedByIgnore => "blocked by ignore filters",
        ExplainDecision::BlockedByExclude { .. } => "blocked by exclude",
        ExplainDecision::NotIncludedByInclude { .. } => "not included by include",
        ExplainDecision::SkippedByMaxSize { .. } => "skipped by max-size",
        ExplainDecision::SkippedBinary => "skipped because binary file",
        ExplainDecision::Unreadable { .. } => "skipped because unreadable",
    }
}

/// The line that names the rule or limit behind a decision, empty where
/// there is none.
pub open spec fn rule_line(v: Verdict) -> Seq<char> {
    match v {
        Verdict::BlockedByBlacklist(r) => "  Rule    blacklist = "@ + r + "\n"@,
        Verdict::BlockedByExclude(r) => "  Rule    exclude = "@ + r + "\n"@,
        Verdict::NotIncludedByInclude(r) => "  Rule    include = "@ + r + "\n"@,
        Verdict::SkippedByMaxSize(k, b) => "  Rule    max-size = "@ + decimal(k as nat)
            + " KiB, actual = "@ + decimal(b as nat) + " bytes\n"@,
        Verdict::Unreadable(e) => "  Rule    read error = "@ + e + "\n"@,
        _ => Seq::empty(),
    }
}

/// The result line and the rule line of one side.
pub open spec fn side_text(v: Verdict) -> Seq<char> {
    "  Result  "@ + verdict_text(v) + "\n"@ + rule_line(v)
}

/// The tree part of a report.
pub open spec fn tree_text_of(t: Option<Verdict>) -> Seq<char> {
    match t {
        Some(v) => "Tree\n"@ + side_text(v),
        None => Seq::empty(),
    }
}

/// The text of one report: a framed header with the path, then the
/// content side and the tree side; a path that was not found has the one
/// line that says so.
pub open spec fn report_text(rep: ExplainReport) -> Seq<char> {
    let header = "----------------\n"@ + rep.path@ + "\n----------------\n\n"@;
    header + match section_verdict(rep.content) {
        Some(Verdict::NotFound) => "Result  not found\n"@,
        Some(v) => "Content\n"@ + side_text(v) + "\n"@ + tree_text_of(section_verdict(rep.tree)),
        None => tree_text_of(section_verdict(rep.tree)),
    }
}

/// The text of all reports, a blank line between two.
pub open spec fn reports_text(rs: Seq<ExplainReport>) -> Seq<char>
    decreases rs.len(),
{
    if rs.len() == 0 {
        Seq::empty()
    } else if rs.len() == 1 {
        report_text(rs[0])
    } else {
        reports_text(rs.drop_last()) + "\n"@ + report_text(rs.last())
    }
}

fn push_rule_line(s: &mut String, d: &ExplainDecision)
    ensures
        final(s)@ == old(s)@ + rule_line(d@),
{
    match d {
        ExplainDecision::BlockedByBlacklist { rule } => {
            push_str(s, "  Rule    blacklist = ");
            push_str(s, rule.as_str());
            push_str(s, "\n");
        },
        ExplainDecision::BlockedByExclude { rule } => {
            push_str(s, "  Rule    exclude = ");
            push_str(s, rule.as_str());
            push_str(s, "\n");
        },
        ExplainDecision::NotIncludedByInclude { rule } => {
            push_str(s, "  Rule    include = ");
            push_str(s, rule.as_str());
            push_str(s, "\n");
        },
        ExplainDecision::SkippedByMaxSize { max_kib, actual_bytes } => {
            push_str(s, "  Rule    max-size = ");
            push_decimal(s, *max_kib as u64);
            push_str(s, " KiB, actual = ");
            push_decimal(s, *actual_bytes);
            push_str(s, " bytes\n");
        },
        ExplainDecision::Unreadable { error } => {
            push_str(s, "  Rule    read error = ");
            push_str(s, error.as_str());
            push_str(s, "\n");
        },
        _ => {
            assert(rule_line(d@) == Seq::<char>::empty());
            assert(old(s)@ + Seq::<char>::empty() == old(s)@);
        },
    }
}

fn push_side(s: &mut String, d: &ExplainDecision)
    ensures
        final(s)@ == old(s)@ + side_text(d@),
{
    push_str(s, "  Result  ");
    push_str(s, decision_text(d));
    push_str(s, "\n");
    push_rule_line(s, d);
}

fn push_tree(s: &mut String, t: &Option<ExplainSection>)
    ensures
        final(s)@ == old(s)@ + tree_text_of(section_verdict(*t)),
{
    match t {
        Some(sec) => {
            push_str(s, "Tree\n");
            push_side(s, &sec.decision);
        },
        None => {
            assert(old(s)@ + Seq::<char>::empty() == old(s)@);
        },
    }
}

/// The text of one report.
pub fn render_report(rep: &ExplainReport) -> (r: String)
    ensures
        r@ == report_text(*rep),
{
    let mut s = String::from_str("----------------\n");
    push_str(&mut s, rep.path.as_str());
    push_str(&mut s, "\n----------------\n\n");
    let ghost header = s@;
    match &rep.content {
        Some(sec) => {
            if let ExplainDecision::NotFound = sec.decision {
                push_str(&mut s, "Result  not found\n");
            } else {
                push_str(&mut s, "Content\n");
                push_side(&mut s, &sec.decision);
                push_str(&mut s, "\n");
                push_tree(&mut s, &rep.tree);
            }
        },
        None => {
            push_tree(&mut s, &rep.tree);
        },
    }
    s
}

/// The text of all reports, a blank line between two.
pub fn render_reports(reports: &Vec<ExplainReport>) -> (r: String)
    ensures
        r@ == reports_text(reports@),
{
    let mut s = String::new();
    let mut i: usize = 0;
    while i < reports.len()
        invariant
            i <= reports.len(),
            s@ == reports_text(reports@.take(i as int)),
        decreases reports.len() - i,
    {
        let text = render_report(&reports[i]);
        proof {
            let t = reports@.take(i as int + 1);
            assert(t.drop_last() == reports@.take(i as int));
            assert(t.last() == reports@[i as int]);
            if i == 0 {
                assert(s@ == Seq::<char>::empty());
            }
        }
        if i > 0 {
            push_str(&mut s, "\n");
        }
        push_str(&mut s, text.as_str());
        i = i + 1;
    }
    assert(reports@.take(reports.len() as int) == reports@);
    s
}

/// Size, binary content and UTF-8 status decide only whether content is
/// attached: the tree decision does not depend on what reading the file
/// gives, nor on whether it is a regular file.
pub proof fn law_tree_ignores_content_facts(
    a: AppConfig,
    root: Seq<char>,
    p: Seq<char>,
    rel: Seq<char>,
    f: PathFacts,
    g: PathFacts,
)
    requires
        f.ignored == g.ignored,
    ensures
        tree_outcome(a, root, p, rel, f) == tree_outcome(a, root, p, rel, g),
{
}

/// The current output file is operational output for both the content and
/// the tree, whatever the patterns and the blacklist say.
pub proof fn law_current_output_is_never_selected(a: AppConfig, input: Seq<char>, f: PathFacts)
    requires
        f.exists == Some(true),
        f.canonical is Some,
        f.is_output == Some(true),
    ensures
        path_outcome(a, input, f) == ReportOutcome::Report(
            Some(Verdict::OperationalOutput),
            Some(Verdict::OperationalOutput),
        ),
{
}

/// Whether the fact that a probe asks for is still unknown.
pub open spec fn fact_unknown(f: PathFacts, m: ProbeModel) -> bool {
    match m {
        ProbeModel::Exists(_) => f.exists is None,
        ProbeModel::Canonicalize(_) => f.canonical is None,
        ProbeModel::SameAsOutput(_) => f.is_output is None,
        ProbeModel::IsSymlink(_) => f.is_symlink is None,
        ProbeModel::Ignored(_) => f.ignored is None,
        ProbeModel::IsFile(_) => f.is_file is None,
        ProbeModel::Inspect(_) => f.inspection is None,
    }
}

/// Explaining a path never asks again for a fact it has been given.
pub proof fn law_step_asks_only_unknown_facts(a: AppConfig, input: Seq<char>, f: PathFacts)
    ensures
        path_outcome(a, input, f) matches ReportOutcome::Need(m) ==> fact_unknown(f, m),
{
}

/// Once every fact about a path is known, explaining it comes to an end:
/// a report, or the failure of a pattern.
pub proof fn law_known_facts_settle_the_report(a: AppConfig, input: Seq<char>, f: PathFacts)
    requires
        f.exists is Some,
        f.canonical is Some,
        f.is_output is Some,
        f.is_symlink is Some,
        f.ignored is Some,
        f.is_file is Some,
        f.inspection is Some,
    ensures
        !(path_outcome(a, input, f) is Need),
{
}

} // verus!
