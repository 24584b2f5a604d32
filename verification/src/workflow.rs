//! Steps of a workflow: what a step asks for, when it may run, and how it ends.
use vstd::prelude::*;

use crate::config::{has_name_chars, is_name_char, only_name_chars};
use crate::text::{
    byte_len, byte_length, copy_optional, copy_texts, debug_string, debug_form, join_texts, joined,
    optional_view, same_text, same_texts, texts_view,
};

verus! {

pub const WORKFLOW_SCHEMA_VERSION: u32 = 1;

pub const MAX_IDENTIFIER_BYTES: usize = 128;

pub const MAX_DEPENDENCIES: usize = 128;

pub const MAX_PATHS: usize = 256;

pub const MAX_COMMAND_ITEMS: usize = 4096;

/// What a step asks for.
#[derive(Clone, Debug, PartialEq, Eq)]
pub struct WorkflowStepArgs {
    pub session_id: String,
    pub step_id: String,
    pub depends_on: Vec<String>,
    pub idempotency_key: String,
    pub required_files: Vec<String>,
    pub expected_outputs: Vec<String>,
    pub command: Vec<String>,
    pub continue_on_error: bool,
}

#[derive(Clone, Copy, Debug, PartialEq, Eq, Structural)]
pub enum StepStatus {
    Pending,
    Running,
    Succeeded,
    Failed,
    Blocked,
}

impl StepStatus {
    /// The word for this status.
    pub open spec fn word(self) -> Seq<char> {
        match self {
            StepStatus::Pending => "pending"@,
            StepStatus::Running => "running"@,
            StepStatus::Succeeded => "succeeded"@,
            StepStatus::Failed => "failed"@,
            StepStatus::Blocked => "blocked"@,
        }
    }

    pub fn as_str(self) -> (word: &'static str)
        ensures
            word@ == self.word(),
    {
        match self {
            StepStatus::Pending => "pending",
            StepStatus::Running => "running",
            StepStatus::Succeeded => "succeeded",
            StepStatus::Failed => "failed",
            StepStatus::Blocked => "blocked",
        }
    }
}

/// What makes one run of a step the same as another.
#[derive(Debug, PartialEq, Eq)]
pub struct WorkflowInvocation {
    pub step_id: String,
    pub depends_on: Vec<String>,
    pub required_files: Vec<String>,
    pub expected_outputs: Vec<String>,
    pub command: Vec<String>,
    pub continue_on_error: bool,
}

#[verifier::ext_equal]
pub struct InvocationView {
    pub step_id: Seq<char>,
    pub depends_on: Seq<Seq<char>>,
    pub required_files: Seq<Seq<char>>,
    pub expected_outputs: Seq<Seq<char>>,
    pub command: Seq<Seq<char>>,
    pub continue_on_error: bool,
}

impl View for WorkflowInvocation {
    type V = InvocationView;

    open spec fn view(&self) -> InvocationView {
        InvocationView {
            step_id: self.step_id@,
            depends_on: texts_view(self.depends_on@),
            required_files: texts_view(self.required_files@),
            expected_outputs: texts_view(self.expected_outputs@),
            command: texts_view(self.command@),
            continue_on_error: self.continue_on_error,
        }
    }
}

impl WorkflowStepArgs {
    /// The run that these arguments ask for.
    pub open spec fn run(self) -> InvocationView {
        InvocationView {
            step_id: self.step_id@,
            depends_on: texts_view(self.depends_on@),
            required_files: texts_view(self.required_files@),
            expected_outputs: texts_view(self.expected_outputs@),
            command: texts_view(self.command@),
            continue_on_error: self.continue_on_error,
        }
    }

    /// The run that these arguments ask for.
    pub fn invocation(&self) -> (invocation: WorkflowInvocation)
        ensures
            invocation@ == self.run(),
    {
        WorkflowInvocation {
            step_id: self.step_id.clone(),
            depends_on: copy_texts(&self.depends_on),
            required_files: copy_texts(&self.required_files),
            expected_outputs: copy_texts(&self.expected_outputs),
            command: copy_texts(&self.command),
            continue_on_error: self.continue_on_error,
        }
    }
}

impl Clone for WorkflowInvocation {
    fn clone(&self) -> (copy: WorkflowInvocation)
        ensures
            copy@ == self@,
    {
        WorkflowInvocation {
            step_id: self.step_id.clone(),
            depends_on: copy_texts(&self.depends_on),
            required_files: copy_texts(&self.required_files),
            expected_outputs: copy_texts(&self.expected_outputs),
            command: copy_texts(&self.command),
            continue_on_error: self.continue_on_error,
        }
    }
}

/// Whether two runs of a step are the same.
pub fn same_invocation(a: &WorkflowInvocation, b: &WorkflowInvocation) -> (same: bool)
    ensures
        same == (a@ == b@),
{
    same_text(a.step_id.as_str(), b.step_id.as_str()) && same_texts(&a.depends_on, &b.depends_on)
        && same_texts(&a.required_files, &b.required_files) && same_texts(
        &a.expected_outputs,
        &b.expected_outputs,
    ) && same_texts(&a.command, &b.command) && a.continue_on_error == b.continue_on_error
}

/// A status that a step came to have.
#[derive(Clone, Debug, PartialEq, Eq)]
pub struct StepTransition {
    pub status: StepStatus,
    pub at_ms: u64,
    pub detail: Option<String>,
}

#[verifier::ext_equal]
pub struct TransitionView {
    pub status: StepStatus,
    pub at_ms: u64,
    pub detail: Option<Seq<char>>,
}

impl View for StepTransition {
    type V = TransitionView;

    open spec fn view(&self) -> TransitionView {
        TransitionView {
            status: self.status,
            at_ms: self.at_ms,
            detail: optional_view(self.detail),
        }
    }
}

/// The views of transitions.
pub open spec fn history_view(history: Seq<StepTransition>) -> Seq<TransitionView> {
    Seq::new(history.len(), |i: int| history[i]@)
}

fn copy_history(history: &Vec<StepTransition>) -> (copy: Vec<StepTransition>)
    ensures
        history_view(copy@) == history_view(history@),
{
    let mut copy: Vec<StepTransition> = Vec::new();
    let mut index: usize = 0;
    while index < history.len()
        invariant
            index <= history@.len(),
            copy@.len() == index,
            forall|i: int| 0 <= i < index ==> (#[trigger] copy@[i])@ == history@[i]@,
        decreases history@.len() - index,
    {
        copy.push(
            StepTransition {
                status: history[index].status,
                at_ms: history[index].at_ms,
                detail: copy_optional(&history[index].detail),
            },
        );
        index = index + 1;
    }
    assert(history_view(copy@) =~= history_view(history@));
    copy
}

/// What the journal keeps of a step.
#[derive(Debug, PartialEq, Eq)]
pub struct StepRecord {
    pub version: u32,
    pub session_id: String,
    pub step_id: String,
    pub idempotency_key: String,
    pub invocation: WorkflowInvocation,
    pub runner_instance_id: String,
    pub status: StepStatus,
    pub continue_on_error: bool,
    pub created_at_ms: u64,
    pub updated_at_ms: u64,
    pub finished_at_ms: Option<u64>,
    pub exit_code: Option<i32>,
    pub stdout: String,
    pub stderr: String,
    pub error: Option<String>,
    pub blocked_by: Vec<String>,
    pub missing_required_files: Vec<String>,
    pub missing_expected_outputs: Vec<String>,
    pub history: Vec<StepTransition>,
}

#[verifier::ext_equal]
pub struct StepView {
    pub version: u32,
    pub session_id: Seq<char>,
    pub step_id: Seq<char>,
    pub idempotency_key: Seq<char>,
    pub invocation: InvocationView,
    pub runner_instance_id: Seq<char>,
    pub status: StepStatus,
    pub continue_on_error: bool,
    pub created_at_ms: u64,
    pub updated_at_ms: u64,
    pub finished_at_ms: Option<u64>,
    pub exit_code: Option<i32>,
    pub stdout: Seq<char>,
    pub stderr: Seq<char>,
    pub error: Option<Seq<char>>,
    pub blocked_by: Seq<Seq<char>>,
    pub missing_required_files: Seq<Seq<char>>,
    pub missing_expected_outputs: Seq<Seq<char>>,
    pub history: Seq<TransitionView>,
}

impl View for StepRecord {
    type V = StepView;

    open spec fn view(&self) -> StepView {
        StepView {
            version: self.version,
            session_id: self.session_id@,
            step_id: self.step_id@,
            idempotency_key: self.idempotency_key@,
            invocation: self.invocation@,
            runner_instance_id: self.runner_instance_id@,
            status: self.status,
            continue_on_error: self.continue_on_error,
            created_at_ms: self.created_at_ms,
            updated_at_ms: self.updated_at_ms,
            finished_at_ms: self.finished_at_ms,
            exit_code: self.exit_code,
            stdout: self.stdout@,
            stderr: self.stderr@,
            error: optional_view(self.error),
            blocked_by: texts_view(self.blocked_by@),
            missing_required_files: texts_view(self.missing_required_files@),
            missing_expected_outputs: texts_view(self.missing_expected_outputs@),
            history: history_view(self.history@),
        }
    }
}

impl Clone for StepRecord {
    fn clone(&self) -> (copy: StepRecord)
        ensures
            copy@ == self@,
    {
        StepRecord {
            version: self.version,
            session_id: self.session_id.clone(),
            step_id: self.step_id.clone(),
            idempotency_key: self.idempotency_key.clone(),
            invocation: self.invocation.clone(),
            runner_instance_id: self.runner_instance_id.clone(),
            status: self.status,
            continue_on_error: self.continue_on_error,
            created_at_ms: self.created_at_ms,
            updated_at_ms: self.updated_at_ms,
            finished_at_ms: self.finished_at_ms,
            exit_code: self.exit_code,
            stdout: self.stdout.clone(),
            stderr: self.stderr.clone(),
            error: copy_optional(&self.error),
            blocked_by: copy_texts(&self.blocked_by),
            missing_required_files: copy_texts(&self.missing_required_files),
            missing_expected_outputs: copy_texts(&self.missing_expected_outputs),
            history: copy_history(&self.history),
        }
    }
}

/// The answer to a step.
#[derive(Clone, Debug, PartialEq, Eq)]
pub struct WorkflowStepResult {
    pub schema_version: u32,
    pub step_id: String,
    pub idempotency_key: String,
    pub status: StepStatus,
    pub reused: bool,
    pub continue_on_error: bool,
    pub created_at_ms: Option<u64>,
    pub updated_at_ms: Option<u64>,
    pub finished_at_ms: Option<u64>,
    pub exit_code: Option<i32>,
    pub stdout: String,
    pub stderr: String,
    pub error: Option<String>,
    pub blocked_by: Vec<String>,
    pub missing_required_files: Vec<String>,
    pub missing_expected_outputs: Vec<String>,
    pub history: Vec<StepTransition>,
}

#[verifier::ext_equal]
pub struct StepResultView {
    pub schema_version: u32,
    pub step_id: Seq<char>,
    pub idempotency_key: Seq<char>,
    pub status: StepStatus,
    pub reused: bool,
    pub continue_on_error: bool,
    pub created_at_ms: Option<u64>,
    pub updated_at_ms: Option<u64>,
    pub finished_at_ms: Option<u64>,
    pub exit_code: Option<i32>,
    pub stdout: Seq<char>,
    pub stderr: Seq<char>,
    pub error: Option<Seq<char>>,
    pub blocked_by: Seq<Seq<char>>,
    pub missing_required_files: Seq<Seq<char>>,
    pub missing_expected_outputs: Seq<Seq<char>>,
    pub history: Seq<TransitionView>,
}

impl View for WorkflowStepResult {
    type V = StepResultView;

    open spec fn view(&self) -> StepResultView {
        StepResultView {
            schema_version: self.schema_version,
            step_id: self.step_id@,
            idempotency_key: self.idempotency_key@,
            status: self.status,
            reused: self.reused,
            continue_on_error: self.continue_on_error,
            created_at_ms: self.created_at_ms,
            updated_at_ms: self.updated_at_ms,
            finished_at_ms: self.finished_at_ms,
            exit_code: self.exit_code,
            stdout: self.stdout@,
            stderr: self.stderr@,
            error: optional_view(self.error),
            blocked_by: texts_view(self.blocked_by@),
            missing_required_files: texts_view(self.missing_required_files@),
            missing_expected_outputs: texts_view(self.missing_expected_outputs@),
            history: history_view(self.history@),
        }
    }
}

impl StepView {
    /// What is answered of this step.
    pub open spec fn answer(self, reused: bool) -> StepResultView {
        StepResultView {
            schema_version: WORKFLOW_SCHEMA_VERSION,
            step_id: self.step_id,
            idempotency_key: self.idempotency_key,
            status: self.status,
            reused,
            continue_on_error: self.continue_on_error,
            created_at_ms: Some(self.created_at_ms),
            updated_at_ms: Some(self.updated_at_ms),
            finished_at_ms: self.finished_at_ms,
            exit_code: self.exit_code,
            stdout: self.stdout,
            stderr: self.stderr,
            error: self.error,
            blocked_by: self.blocked_by,
            missing_required_files: self.missing_required_files,
            missing_expected_outputs: self.missing_expected_outputs,
            history: self.history,
        }
    }

    /// Whether a step that depends on this one may run.
    pub open spec fn satisfied(self) -> bool {
        self.status == StepStatus::Succeeded || (self.status == StepStatus::Failed
            && self.continue_on_error)
    }

    /// Why this step may not run.
    pub open spec fn obstacles(self) -> Seq<char> {
        let dependencies = "unsatisfied dependencies: "@ + joined(self.blocked_by, ", "@);
        let files = "missing required files: "@ + joined(self.missing_required_files, ", "@);
        if self.blocked_by.len() > 0 && self.missing_required_files.len() > 0 {
            dependencies + "; "@ + files
        } else if self.blocked_by.len() > 0 {
            dependencies
        } else if self.missing_required_files.len() > 0 {
            files
        } else {
            Seq::empty()
        }
    }
}

impl StepRecord {
    /// What is answered of this step.
    pub fn result(&self, reused: bool) -> (result: WorkflowStepResult)
        ensures
            result@ == self@.answer(reused),
    {
        WorkflowStepResult {
            schema_version: WORKFLOW_SCHEMA_VERSION,
            step_id: self.step_id.clone(),
            idempotency_key: self.idempotency_key.clone(),
            status: self.status,
            reused,
            continue_on_error: self.continue_on_error,
            created_at_ms: Some(self.created_at_ms),
            updated_at_ms: Some(self.updated_at_ms),
            finished_at_ms: self.finished_at_ms,
            exit_code: self.exit_code,
            stdout: self.stdout.clone(),
            stderr: self.stderr.clone(),
            error: copy_optional(&self.error),
            blocked_by: copy_texts(&self.blocked_by),
            missing_required_files: copy_texts(&self.missing_required_files),
            missing_expected_outputs: copy_texts(&self.missing_expected_outputs),
            history: copy_history(&self.history),
        }
    }
}

/// The answer that a step cannot be told from another.
pub open spec fn conflict_answer(
    step_id: Seq<char>,
    idempotency_key: Seq<char>,
    continue_on_error: bool,
    message: Seq<char>,
) -> StepResultView {
    StepResultView {
        schema_version: WORKFLOW_SCHEMA_VERSION,
        step_id,
        idempotency_key,
        status: StepStatus::Blocked,
        reused: false,
        continue_on_error,
        created_at_ms: None,
        updated_at_ms: None,
        finished_at_ms: None,
        exit_code: None,
        stdout: Seq::empty(),
        stderr: Seq::empty(),
        error: Some(message),
        blocked_by: Seq::empty(),
        missing_required_files: Seq::empty(),
        missing_expected_outputs: Seq::empty(),
        history: Seq::empty(),
    }
}

impl WorkflowStepResult {
    /// The answer that a step cannot be told from another.
    pub fn conflict(args: &WorkflowStepArgs, message: String) -> (result: WorkflowStepResult)
        ensures
            result@ == conflict_answer(
                args.step_id@,
                args.idempotency_key@,
                args.continue_on_error,
                message@,
            ),
    {
        let result = WorkflowStepResult {
            schema_version: WORKFLOW_SCHEMA_VERSION,
            step_id: args.step_id.clone(),
            idempotency_key: args.idempotency_key.clone(),
            status: StepStatus::Blocked,
            reused: false,
            continue_on_error: args.continue_on_error,
            created_at_ms: None,
            updated_at_ms: None,
            finished_at_ms: None,
            exit_code: None,
            stdout: String::new(),
            stderr: String::new(),
            error: Some(message),
            blocked_by: Vec::new(),
            missing_required_files: Vec::new(),
            missing_expected_outputs: Vec::new(),
            history: Vec::new(),
        };
        proof {
            assert(result@.blocked_by =~= Seq::<Seq<char>>::empty());
            assert(result@.missing_required_files =~= Seq::<Seq<char>>::empty());
            assert(result@.missing_expected_outputs =~= Seq::<Seq<char>>::empty());
            assert(result@.history =~= Seq::<TransitionView>::empty());
        }
        result
    }
}

/// Whether a step that depends on this one may run.
pub fn dependency_satisfied(record: &StepRecord) -> (satisfied: bool)
    ensures
        satisfied == record@.satisfied(),
{
    record.status == StepStatus::Succeeded || (record.status == StepStatus::Failed
        && record.continue_on_error)
}

/// Why a step may not run.
pub fn block_reason(record: &StepRecord) -> (reason: String)
    ensures
        reason@ == record@.obstacles(),
{
    let mut reason: String = String::new();
    if record.blocked_by.len() > 0 {
        reason.append("unsatisfied dependencies: ");
        reason.append(join_texts(&record.blocked_by, ", ").as_str());
    }
    if record.missing_required_files.len() > 0 {
        if record.blocked_by.len() > 0 {
            reason.append("; ");
        }
        reason.append("missing required files: ");
        reason.append(join_texts(&record.missing_required_files, ", ").as_str());
    }
    proof {
        assert(reason@ =~= record@.obstacles());
    }
    reason
}

/// What is wrong with an identifier.
pub open spec fn identifier_mistake(name: Seq<char>, value: Seq<char>) -> Option<Seq<char>> {
    if value.len() == 0 {
        Some(name + " must not be empty"@)
    } else if byte_len(value) > MAX_IDENTIFIER_BYTES {
        Some(name + " must be at most 128 bytes"@)
    } else if !has_name_chars(value) {
        Some(name + " may contain only ASCII letters, digits, '.', '_' and '-'"@)
    } else {
        None
    }
}

/// Whether the result of a check says what is wrong.
pub open spec fn says(result: Result<(), String>, mistake: Option<Seq<char>>) -> bool {
    match result {
        Ok(_) => mistake is None,
        Err(message) => mistake == Some(message@),
    }
}

/// Checks an identifier.
pub fn validate_identifier(name: &str, value: &str) -> (result: Result<(), String>)
    ensures
        says(result, identifier_mistake(name@, value@)),
{
    let problem: &str = if value.is_empty() {
        " must not be empty"
    } else if byte_length(value) > MAX_IDENTIFIER_BYTES {
        " must be at most 128 bytes"
    } else if !only_name_chars(value) {
        " may contain only ASCII letters, digits, '.', '_' and '-'"
    } else {
        return Ok(());
    };
    let mut message: String = name.to_owned();
    message.append(problem);
    Err(message)
}

/// What is wrong with one of the paths that a step names, given those before it.
pub open spec fn path_mistake(name: Seq<char>, paths: Seq<Seq<char>>, place: int) -> Option<Seq<char>> {
    if paths[place].len() == 0 {
        Some(name + " entries must not be empty"@)
    } else if paths.take(place).contains(paths[place]) {
        Some(name + " contains duplicate path "@ + debug_form(paths[place]))
    } else {
        None
    }
}

/// What is wrong with the paths that a step names, from a place on: the first mistake.
pub open spec fn paths_mistake(name: Seq<char>, paths: Seq<Seq<char>>, place: int) -> Option<Seq<char>>
    decreases paths.len() - place,
{
    if place >= paths.len() {
        None
    } else {
        match path_mistake(name, paths, place) {
            Some(message) => Some(message),
            None => paths_mistake(name, paths, place + 1),
        }
    }
}

/// Whether one of the first `count` texts is this one.
fn stands_before(texts: &Vec<String>, count: usize, text: &str) -> (found: bool)
    requires
        count <= texts@.len(),
    ensures
        found == texts_view(texts@).take(count as int).contains(text@),
{
    let ghost views = texts_view(texts@).take(count as int);
    let mut index: usize = 0;
    while index < count
        invariant
            index <= count <= texts@.len(),
            views == texts_view(texts@).take(count as int),
            forall|i: int| 0 <= i < index ==> views[i] != text@,
        decreases count - index,
    {
        if same_text(texts[index].as_str(), text) {
            assert(views[index as int] == text@);
            return true;
        }
        index = index + 1;
    }
    false
}

/// Checks the paths that a step names.
pub fn validate_unique_paths(name: &str, paths: &Vec<String>) -> (result: Result<(), String>)
    ensures
        says(result, paths_mistake(name@, texts_view(paths@), 0)),
{
    let ghost views = texts_view(paths@);
    let mut index: usize = 0;
    while index < paths.len()
        invariant
            views == texts_view(paths@),
            index <= paths@.len(),
            paths_mistake(name@, views, 0) == paths_mistake(name@, views, index as int),
        decreases paths@.len() - index,
    {
        let path: &str = paths[index].as_str();
        if path.is_empty() {
            let mut message: String = name.to_owned();
            message.append(" entries must not be empty");
            return Err(message);
        }
        if stands_before(paths, index, path) {
            let mut message: String = name.to_owned();
            message.append(" contains duplicate path ");
            message.append(debug_string(path).as_str());
            return Err(message);
        }
        index = index + 1;
    }
    Ok(())
}

/// What is wrong with one of the steps that a step depends on, given those before it.
pub open spec fn dependency_mistake(
    step_id: Seq<char>,
    depends_on: Seq<Seq<char>>,
    place: int,
) -> Option<Seq<char>> {
    match identifier_mistake("dependency"@, depends_on[place]) {
        Some(message) => Some(message),
        None => if depends_on[place] == step_id {
            Some("a step cannot depend on itself"@)
        } else if depends_on.take(place).contains(depends_on[place]) {
            Some("depends_on contains duplicate step "@ + debug_form(depends_on[place]))
        } else {
            None
        },
    }
}

/// What is wrong with the steps that a step depends on, from a place on: the first mistake.
pub open spec fn dependencies_mistake(
    step_id: Seq<char>,
    depends_on: Seq<Seq<char>>,
    place: int,
) -> Option<Seq<char>>
    decreases depends_on.len() - place,
{
    if place >= depends_on.len() {
        None
    } else {
        match dependency_mistake(step_id, depends_on, place) {
            Some(message) => Some(message),
            None => dependencies_mistake(step_id, depends_on, place + 1),
        }
    }
}

fn validate_dependencies(step_id: &str, depends_on: &Vec<String>) -> (result: Result<(), String>)
    ensures
        says(result, dependencies_mistake(step_id@, texts_view(depends_on@), 0)),
{
    let ghost views = texts_view(depends_on@);
    let mut index: usize = 0;
    while index < depends_on.len()
        invariant
            views == texts_view(depends_on@),
            index <= depends_on@.len(),
            dependencies_mistake(step_id@, views, 0) == dependencies_mistake(
                step_id@,
                views,
                index as int,
            ),
        decreases depends_on@.len() - index,
    {
        let dependency: &str = depends_on[index].as_str();
        match validate_identifier("dependency", dependency) {
            Ok(_) => {},
            Err(message) => {
                return Err(message);
            },
        }
        if same_text(dependency, step_id) {
            return Err("a step cannot depend on itself".to_owned());
        }
        if stands_before(depends_on, index, dependency) {
            let mut message: String = "depends_on contains duplicate step ".to_owned();
            message.append(debug_string(dependency).as_str());
            return Err(message);
        }
        index = index + 1;
    }
    Ok(())
}

/// The first of two mistakes.
pub open spec fn first_mistake(a: Option<Seq<char>>, b: Option<Seq<char>>) -> Option<Seq<char>> {
    match a {
        Some(message) => Some(message),
        None => b,
    }
}

impl WorkflowStepArgs {
    /// What is wrong with the sizes of these arguments.
    pub open spec fn size_mistake(self) -> Option<Seq<char>> {
        if self.depends_on@.len() > MAX_DEPENDENCIES {
            Some("depends_on may contain at most 128 entries"@)
        } else if self.required_files@.len() > MAX_PATHS {
            Some("required_files may contain at most 256 entries"@)
        } else if self.expected_outputs@.len() > MAX_PATHS {
            Some("expected_outputs may contain at most 256 entries"@)
        } else if self.command@.len() == 0 || self.command@[0]@.len() == 0 {
            Some("command must contain a non-empty executable"@)
        } else if self.command@.len() > MAX_COMMAND_ITEMS {
            Some("command may contain at most 4096 entries"@)
        } else {
            None
        }
    }

    /// What is wrong with these arguments: the first mistake.
    pub open spec fn mistake(self) -> Option<Seq<char>> {
        first_mistake(
            identifier_mistake("step_id"@, self.step_id@),
            first_mistake(
                identifier_mistake("idempotency_key"@, self.idempotency_key@),
                first_mistake(
                    self.size_mistake(),
                    first_mistake(
                        dependencies_mistake(self.step_id@, texts_view(self.depends_on@), 0),
                        first_mistake(
                            paths_mistake(
                                "required_files"@,
                                texts_view(self.required_files@),
                                0,
                            ),
                            paths_mistake(
                                "expected_outputs"@,
                                texts_view(self.expected_outputs@),
                                0,
                            ),
                        ),
                    ),
                ),
            ),
        )
    }
}

/// Checks the arguments of a step.
pub fn validate_args(args: &WorkflowStepArgs) -> (result: Result<(), String>)
    ensures
        says(result, args.mistake()),
{
    match validate_identifier("step_id", args.step_id.as_str()) {
        Ok(_) => {},
        Err(message) => {
            return Err(message);
        },
    }
    match validate_identifier("idempotency_key", args.idempotency_key.as_str()) {
        Ok(_) => {},
        Err(message) => {
            return Err(message);
        },
    }
    if args.depends_on.len() > MAX_DEPENDENCIES {
        return Err("depends_on may contain at most 128 entries".to_owned());
    }
    if args.required_files.len() > MAX_PATHS {
        return Err("required_files may contain at most 256 entries".to_owned());
    }
    if args.expected_outputs.len() > MAX_PATHS {
        return Err("expected_outputs may contain at most 256 entries".to_owned());
    }
    if args.command.len() == 0 || args.command[0].as_str().is_empty() {
        return Err("command must contain a non-empty executable".to_owned());
    }
    if args.command.len() > MAX_COMMAND_ITEMS {
        return Err("command may contain at most 4096 entries".to_owned());
    }
    match validate_dependencies(args.step_id.as_str(), &args.depends_on) {
        Ok(_) => {},
        Err(message) => {
            return Err(message);
        },
    }
    match validate_unique_paths("required_files", &args.required_files) {
        Ok(_) => {},
        Err(message) => {
            return Err(message);
        },
    }
    validate_unique_paths("expected_outputs", &args.expected_outputs)
}

/// Two requests ask for the same run exactly if all that a run is made of agrees: its step, what it depends
/// on and needs, what it is to write, its command, and whether its failure is a hindrance. The session and
/// the key are no part of it.
pub proof fn law_runs_agree_part_by_part(a: WorkflowStepArgs, b: WorkflowStepArgs)
    ensures
        a.run() == b.run() <==> {
            &&& a.step_id@ == b.step_id@
            &&& texts_view(a.depends_on@) == texts_view(b.depends_on@)
            &&& texts_view(a.required_files@) == texts_view(b.required_files@)
            &&& texts_view(a.expected_outputs@) == texts_view(b.expected_outputs@)
            &&& texts_view(a.command@) == texts_view(b.command@)
            &&& a.continue_on_error == b.continue_on_error
        },
{
    if a.step_id@ == b.step_id@ && texts_view(a.depends_on@) == texts_view(b.depends_on@)
        && texts_view(a.required_files@) == texts_view(b.required_files@) && texts_view(
        a.expected_outputs@,
    ) == texts_view(b.expected_outputs@) && texts_view(a.command@) == texts_view(b.command@)
        && a.continue_on_error == b.continue_on_error {
        assert(a.run() =~= b.run());
    }
}

/// What is answered of a step is what its record holds, and whether it was run before.
pub proof fn law_answers_tell_the_step(step: StepView, reused: bool)
    ensures
        ({
            let answer = step.answer(reused);
            &&& answer.reused == reused
            &&& answer.step_id == step.step_id
            &&& answer.idempotency_key == step.idempotency_key
            &&& answer.status == step.status
            &&& answer.continue_on_error == step.continue_on_error
            &&& answer.created_at_ms == Some(step.created_at_ms)
            &&& answer.updated_at_ms == Some(step.updated_at_ms)
            &&& answer.finished_at_ms == step.finished_at_ms
            &&& answer.exit_code == step.exit_code
            &&& answer.stdout == step.stdout
            &&& answer.stderr == step.stderr
            &&& answer.error == step.error
            &&& answer.blocked_by == step.blocked_by
            &&& answer.missing_required_files == step.missing_required_files
            &&& answer.missing_expected_outputs == step.missing_expected_outputs
            &&& answer.history == step.history
        }),
{
}

/// A step may be depended on exactly if it has succeeded, or has failed and said that this is no hindrance.
pub proof fn law_only_ended_steps_satisfy(step: StepView)
    ensures
        step.satisfied() ==> step.status != StepStatus::Pending && step.status != StepStatus::Running
            && step.status != StepStatus::Blocked,
        step.status == StepStatus::Succeeded ==> step.satisfied(),
        step.status == StepStatus::Failed ==> (step.satisfied() <==> step.continue_on_error),
{
}

/// Why a step may not run names each step and each file that it lacks.
pub proof fn law_reasons_name_what_is_lacking(step: StepView)
    ensures
        step.blocked_by.len() > 0 ==> exists|rest: Seq<char>|
            step.obstacles() == #[trigger] ("unsatisfied dependencies: "@ + joined(
                step.blocked_by,
                ", "@,
            ) + rest),
        step.missing_required_files.len() > 0 ==> exists|first: Seq<char>|
            step.obstacles() == #[trigger] (first + "missing required files: "@ + joined(
                step.missing_required_files,
                ", "@,
            )),
        step.blocked_by.len() == 0 && step.missing_required_files.len() == 0
            ==> step.obstacles().len() == 0,
{
    let dependencies = "unsatisfied dependencies: "@ + joined(step.blocked_by, ", "@);
    let files = "missing required files: "@ + joined(step.missing_required_files, ", "@);
    let nothing = Seq::<char>::empty();
    if step.blocked_by.len() > 0 && step.missing_required_files.len() > 0 {
        assert(step.obstacles() =~= dependencies + ("; "@ + files));
        assert(step.obstacles() =~= (dependencies + "; "@) + "missing required files: "@ + joined(
            step.missing_required_files,
            ", "@,
        ));
    } else if step.blocked_by.len() > 0 {
        assert(step.obstacles() =~= dependencies + nothing);
    } else if step.missing_required_files.len() > 0 {
        assert(step.obstacles() =~= nothing + "missing required files: "@ + joined(
            step.missing_required_files,
            ", "@,
        ));
    }
}

/// An identifier is accepted exactly if it has 1 to 128 bytes, each an ASCII letter, a digit, a dot, an
/// underscore or a hyphen.
pub proof fn law_identifiers_are_names(name: Seq<char>, value: Seq<char>)
    ensures
        identifier_mistake(name, value) is None <==> {
            &&& 1 <= byte_len(value) <= 128
            &&& forall|i: int|
                0 <= i < value.len() ==> {
                    let c = #[trigger] value[i];
                    'a' <= c <= 'z' || 'A' <= c <= 'Z' || '0' <= c <= '9' || c == '.' || c == '_' || c
                        == '-'
                }
        },
{
    crate::text::lemma_byte_len_bounds(value);
    if forall|i: int|
        0 <= i < value.len() ==> {
            let c = #[trigger] value[i];
            'a' <= c <= 'z' || 'A' <= c <= 'Z' || '0' <= c <= '9' || c == '.' || c == '_' || c == '-'
        } {
        assert(has_name_chars(value));
    }
    if has_name_chars(value) {
        assert forall|i: int| 0 <= i < value.len() implies {
            let c = #[trigger] value[i];
            'a' <= c <= 'z' || 'A' <= c <= 'Z' || '0' <= c <= '9' || c == '.' || c == '_' || c == '-'
        } by {
            assert(is_name_char(value[i]));
        }
    }
}

proof fn lemma_paths_in_order(name: Seq<char>, paths: Seq<Seq<char>>, place: int)
    requires
        0 <= place <= paths.len(),
    ensures
        paths_mistake(name, paths, place) is None <==> forall|i: int|
            place <= i < paths.len() ==> (#[trigger] paths[i]).len() > 0 && forall|j: int|
                0 <= j < i ==> #[trigger] paths[j] != paths[i],
    decreases paths.len() - place,
{
    if place < paths.len() {
        lemma_paths_in_order(name, paths, place + 1);
        let before = paths.take(place);
        if before.contains(paths[place]) {
            let j = choose|j: int| 0 <= j < before.len() && before[j] == paths[place];
            assert(paths[j] == paths[place]);
        } else {
            assert forall|j: int| 0 <= j < place implies #[trigger] paths[j] != paths[place] by {
                assert(before[j] == paths[j]);
            }
        }
    }
}

proof fn lemma_dependencies_in_order(step_id: Seq<char>, depends_on: Seq<Seq<char>>, place: int)
    requires
        0 <= place <= depends_on.len(),
    ensures
        dependencies_mistake(step_id, depends_on, place) is None <==> forall|i: int|
            place <= i < depends_on.len() ==> identifier_mistake(
                "dependency"@,
                #[trigger] depends_on[i],
            ) is None && depends_on[i] != step_id && forall|j: int|
                0 <= j < i ==> #[trigger] depends_on[j] != depends_on[i],
    decreases depends_on.len() - place,
{
    if place < depends_on.len() {
        lemma_dependencies_in_order(step_id, depends_on, place + 1);
        let before = depends_on.take(place);
        if before.contains(depends_on[place]) {
            let j = choose|j: int| 0 <= j < before.len() && before[j] == depends_on[place];
            assert(depends_on[j] == depends_on[place]);
        } else {
            assert forall|j: int| 0 <= j < place implies #[trigger] depends_on[j]
                != depends_on[place] by {
                assert(before[j] == depends_on[j]);
            }
        }
    }
}

/// The arguments of a step are accepted exactly if its name and its key are identifiers, its command has a
/// program, nothing is listed too often, it depends on other steps, each named once, and the paths that it
/// names are not empty and stand there once each.
pub proof fn law_arguments_are_accepted_exactly_if_in_order(args: WorkflowStepArgs)
    ensures
        args.mistake() is None <==> {
            let depends_on = texts_view(args.depends_on@);
            let required = texts_view(args.required_files@);
            let expected = texts_view(args.expected_outputs@);
            &&& identifier_mistake("step_id"@, args.step_id@) is None
            &&& identifier_mistake("idempotency_key"@, args.idempotency_key@) is None
            &&& depends_on.len() <= 128
            &&& required.len() <= 256
            &&& expected.len() <= 256
            &&& 1 <= args.command@.len() <= 4096
            &&& args.command@[0]@.len() > 0
            &&& forall|i: int|
                0 <= i < depends_on.len() ==> identifier_mistake(
                    "dependency"@,
                    #[trigger] depends_on[i],
                ) is None && depends_on[i] != args.step_id@ && forall|j: int|
                    0 <= j < i ==> #[trigger] depends_on[j] != depends_on[i]
            &&& forall|i: int|
                0 <= i < required.len() ==> (#[trigger] required[i]).len() > 0 && forall|j: int|
                    0 <= j < i ==> #[trigger] required[j] != required[i]
            &&& forall|i: int|
                0 <= i < expected.len() ==> (#[trigger] expected[i]).len() > 0 && forall|j: int|
                    0 <= j < i ==> #[trigger] expected[j] != expected[i]
        },
{
    lemma_dependencies_in_order(args.step_id@, texts_view(args.depends_on@), 0);
    lemma_paths_in_order("required_files"@, texts_view(args.required_files@), 0);
    lemma_paths_in_order("expected_outputs"@, texts_view(args.expected_outputs@), 0);
}

} // verus!
