//! What running a command leaves behind: its exit code and its artifacts.

use vstd::prelude::*;
use vstd::string::*;

verus! {

/// Where an artifact is kept.
#[derive(Debug, PartialEq, Eq)]
pub enum Pointer {
    /// A path on the filesystem.
    Path(String),
}

#[derive(Debug, PartialEq, Eq)]
pub struct ArtifactPointer {
    pub artifact_name: String,
    pub pointer: Option<Pointer>,
}

#[derive(Debug, PartialEq, Eq)]
pub struct TestOutputs {
    pub artifacts: Vec<ArtifactPointer>,
    pub exit_code: i32,
}

#[derive(Debug, PartialEq, Eq)]
pub struct TestResult {
    pub test_name: String,
    pub outputs: Option<TestOutputs>,
}

#[derive(Debug, PartialEq, Eq)]
pub enum ExecutedTestResult {
    Success(TestResult),
    MissingFiles {
        /// The result, with the artifacts that exist.
        test_result: TestResult,
        /// The declared outputs that were not found on the filesystem.
        missing_artifacts: Vec<ArtifactPointer>,
    },
    Skipped,
}

/// What a [`Pointer`] says, as plain values.
pub enum PointerView {
    Path(Seq<char>),
}

/// What an [`ArtifactPointer`] says, as plain values.
pub struct ArtifactPointerView {
    pub artifact_name: Seq<char>,
    pub pointer: Option<PointerView>,
}

/// What a [`TestOutputs`] says, as plain values.
pub struct TestOutputsView {
    pub artifacts: Seq<ArtifactPointerView>,
    pub exit_code: int,
}

/// What a [`TestResult`] says, as plain values.
pub struct TestResultView {
    pub test_name: Seq<char>,
    pub outputs: Option<TestOutputsView>,
}

/// What an [`ExecutedTestResult`] says, as plain values.
pub enum ExecutedTestResultView {
    Success(TestResultView),
    MissingFiles { test_result: TestResultView, missing_artifacts: Seq<ArtifactPointerView> },
    Skipped,
}

impl DeepView for Pointer {
    type V = PointerView;

    open spec fn deep_view(&self) -> PointerView {
        match self {
            Pointer::Path(path) => PointerView::Path(path@),
        }
    }
}

impl View for Pointer {
    type V = PointerView;

    open spec fn view(&self) -> PointerView {
        self.deep_view()
    }
}

impl DeepView for ArtifactPointer {
    type V = ArtifactPointerView;

    open spec fn deep_view(&self) -> ArtifactPointerView {
        ArtifactPointerView {
            artifact_name: self.artifact_name@,
            pointer: self.pointer.deep_view(),
        }
    }
}

impl View for ArtifactPointer {
    type V = ArtifactPointerView;

    open spec fn view(&self) -> ArtifactPointerView {
        self.deep_view()
    }
}

impl DeepView for TestOutputs {
    type V = TestOutputsView;

    open spec fn deep_view(&self) -> TestOutputsView {
        TestOutputsView {
            artifacts: self.artifacts.deep_view(),
            exit_code: self.exit_code as int,
        }
    }
}

impl View for TestOutputs {
    type V = TestOutputsView;

    open spec fn view(&self) -> TestOutputsView {
        self.deep_view()
    }
}

impl DeepView for TestResult {
    type V = TestResultView;

    open spec fn deep_view(&self) -> TestResultView {
        TestResultView { test_name: self.test_name@, outputs: self.outputs.deep_view() }
    }
}

impl View for TestResult {
    type V = TestResultView;

    open spec fn view(&self) -> TestResultView {
        self.deep_view()
    }
}

impl DeepView for ExecutedTestResult {
    type V = ExecutedTestResultView;

    open spec fn deep_view(&self) -> ExecutedTestResultView {
        match self {
            ExecutedTestResult::Success(val) => ExecutedTestResultView::Success(val@),
            ExecutedTestResult::MissingFiles { test_result, missing_artifacts } =>
                ExecutedTestResultView::MissingFiles {
                    test_result: test_result@,
                    missing_artifacts: missing_artifacts.deep_view(),
                },
            ExecutedTestResult::Skipped => ExecutedTestResultView::Skipped,
        }
    }
}

impl View for ExecutedTestResult {
    type V = ExecutedTestResultView;

    open spec fn view(&self) -> ExecutedTestResultView {
        self.deep_view()
    }
}

impl Clone for Pointer {
    fn clone(&self) -> (out: Self)
        ensures
            out@ == self@,
    {
        match self {
            Pointer::Path(path) => Pointer::Path(path.clone()),
        }
    }
}

impl Clone for ArtifactPointer {
    fn clone(&self) -> (out: Self)
        ensures
            out@ == self@,
    {
        let pointer = match &self.pointer {
            Some(p) => Some(p.clone()),
            None => None,
        };
        ArtifactPointer { artifact_name: self.artifact_name.clone(), pointer }
    }
}

/// A copy of the artifacts, one by one.
pub fn clone_artifacts(artifacts: &Vec<ArtifactPointer>) -> (out: Vec<ArtifactPointer>)
    ensures
        out.deep_view() == artifacts.deep_view(),
{
    let mut out: Vec<ArtifactPointer> = Vec::new();
    let mut i: usize = 0;
    while i < artifacts.len()
        invariant
            i <= artifacts.len(),
            out.len() == i,
            forall|j: int| 0 <= j < i ==> out[j]@ == artifacts[j]@,
        decreases artifacts.len() - i,
    {
        out.push(artifacts[i].clone());
        i += 1;
    }
    assert(out.deep_view() =~= artifacts.deep_view());
    out
}

impl Clone for TestOutputs {
    fn clone(&self) -> (out: Self)
        ensures
            out@ == self@,
    {
        TestOutputs { artifacts: clone_artifacts(&self.artifacts), exit_code: self.exit_code }
    }
}

impl Clone for TestResult {
    fn clone(&self) -> (out: Self)
        ensures
            out@ == self@,
    {
        let outputs = match &self.outputs {
            Some(o) => Some(o.clone()),
            None => None,
        };
        TestResult { test_name: self.test_name.clone(), outputs }
    }
}

impl Clone for ExecutedTestResult {
    fn clone(&self) -> (out: Self)
        ensures
            out@ == self@,
    {
        match self {
            ExecutedTestResult::Success(val) => ExecutedTestResult::Success(val.clone()),
            ExecutedTestResult::MissingFiles { test_result, missing_artifacts } =>
                ExecutedTestResult::MissingFiles {
                    test_result: test_result.clone(),
                    missing_artifacts: clone_artifacts(missing_artifacts),
                },
            ExecutedTestResult::Skipped => ExecutedTestResult::Skipped,
        }
    }
}

impl Default for TestResult {
    fn default() -> (out: Self)
        ensures
            out@ == (TestResultView { test_name: Seq::empty(), outputs: None }),
    {
        TestResult { test_name: String::new(), outputs: None }
    }
}

impl ArtifactPointer {
    /// An artifact that is a file at `path`.
    pub fn file_artifact(artifact_name: String, path: String) -> (out: Self)
        ensures
            out@ == (ArtifactPointerView {
                artifact_name: artifact_name@,
                pointer: Some(PointerView::Path(path@)),
            }),
    {
        Self { artifact_name, pointer: Some(Pointer::Path(path)) }
    }
}

impl TestOutputs {
    pub fn passed(&self) -> (b: bool)
        ensures
            b == (self.exit_code == 0),
    {
        self.exit_code == 0
    }
}

impl ExecutedTestResult {
    /// A result that was produced by running the command carries its outputs.
    pub open spec fn has_outputs(&self) -> bool {
        match self {
            ExecutedTestResult::Success(val) => val.outputs is Some,
            ExecutedTestResult::MissingFiles { test_result, .. } => test_result.outputs is Some,
            ExecutedTestResult::Skipped => true,
        }
    }

    /// The name of the command that ran; empty for a skipped one.
    pub open spec fn name(&self) -> Seq<char> {
        match self {
            ExecutedTestResult::Success(val) => val.test_name@,
            ExecutedTestResult::MissingFiles { test_result, .. } => test_result.test_name@,
            ExecutedTestResult::Skipped => Seq::empty(),
        }
    }

    /// The outputs of the command that ran; none for a skipped one.
    pub open spec fn outputs(&self) -> Option<TestOutputsView> {
        match self {
            ExecutedTestResult::Success(val) => val.outputs.deep_view(),
            ExecutedTestResult::MissingFiles { test_result, .. } => test_result.outputs.deep_view(),
            ExecutedTestResult::Skipped => None,
        }
    }

    /// The exit code of the command, -1 for a skipped one.
    pub open spec fn retcode(&self) -> int {
        match self {
            ExecutedTestResult::Success(val) => val.outputs->0.exit_code as int,
            ExecutedTestResult::MissingFiles { test_result, .. } =>
                test_result.outputs->0.exit_code as int,
            ExecutedTestResult::Skipped => -1,
        }
    }

    pub fn is_skipped(&self) -> (b: bool)
        ensures
            b == (self is Skipped),
    {
        matches!(self, Self::Skipped)
    }

    /// The name of the command; empty for a skipped one.
    pub fn test_name(&self) -> (out: String)
        ensures
            out@ == self.name(),
    {
        match self {
            Self::Success(val) => val.test_name.clone(),
            Self::MissingFiles { test_result, .. } => test_result.test_name.clone(),
            Self::Skipped => String::new(),
        }
    }

    pub fn to_test_result(self) -> (out: TestResult)
        ensures
            out@ == (TestResultView { test_name: self.name(), outputs: self.outputs() }),
    {
        match self {
            Self::Success(val) => val,
            Self::MissingFiles { test_result, .. } => test_result,
            Self::Skipped => TestResult::default(),
        }
    }

    pub fn get_retcode(&self) -> (code: i32)
        requires
            self.has_outputs(),
        ensures
            code == self.retcode(),
    {
        match self {
            Self::Success(val) => match &val.outputs {
                Some(outputs) => outputs.exit_code,
                None => -1,
            },
            Self::MissingFiles { test_result, .. } => match &test_result.outputs {
                Some(outputs) => outputs.exit_code,
                None => -1,
            },
            Self::Skipped => -1,
        }
    }

    /// Whether the command ran and exited with a code other than 0.
    pub fn failed(&self) -> (b: bool)
        requires
            self.has_outputs(),
        ensures
            b == (self !is Skipped && self.retcode() != 0),
    {
        match self {
            Self::Skipped => false,
            _ => self.get_retcode() != 0,
        }
    }
}

} // verus!
