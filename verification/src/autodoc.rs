use vstd::prelude::*;
use std::sync::Arc;
use crate::crawl::{CrawlAction, CrawlSession, PhaseView, sound};
use crate::file_crawler::{Directory, FileCrawler, TreeNode};

verus! {

/// Where summaries are written.
#[derive(Debug, Clone, Copy)]
pub enum SummaryMode {
    Inline,
    Shadow,
    Adjacent,
}

/// The settings of an autodoc run.
#[derive(Debug)]
pub struct AutodocConfig {
    pub mode: SummaryMode,
    pub ignore_paths: Vec<String>,
}

/// Where the summary of a step is placed.
#[derive(Debug, Clone)]
pub enum SummaryDestination {
    /// Summary will be placed inline in the file
    Inline(String),
    /// Summary will be placed in a new file at the specified path
    NewFile(String),
}

/// A prompt for the summariser.
#[derive(Debug, Clone)]
pub struct ADPrompt(pub String);

impl ADPrompt {
    /// The prompt's text.
    pub fn as_str(&self) -> (s: &str)
        ensures
            s@ == self.0@,
    {
        self.0.as_str()
    }
}

/// A summary produced by the summariser.
#[derive(Debug, Clone)]
pub struct ADSummary(String);

impl ADSummary {
    /// A summary with the text `text`.
    pub fn new(text: String) -> (s: ADSummary)
        ensures
            s.text() == text@,
    {
        ADSummary(text)
    }

    /// The summary's text.
    pub closed spec fn text(&self) -> Seq<char> {
        self.0@
    }

    /// The summary's text.
    pub fn as_str(&self) -> (s: &str)
        ensures
            s@ == self.text(),
    {
        self.0.as_str()
    }
}

/// A piece of a prompt: fixed text, or the summary of another step, given by
/// that step's index in the plan.
#[derive(Debug, Clone)]
pub enum PromptSection {
    StaticString(String),
    Placeholder(usize),
}

/// What a step works with.
#[derive(Debug, Clone)]
pub struct ExecutionStepContext {
    /// The prompt sections used to build the prompt
    pub prompt_sections: Vec<PromptSection>,
    /// The built prompt
    pub prompt: Option<Arc<ADPrompt>>,
    /// The generated summary
    pub summary: Option<Arc<ADSummary>>,
    /// The target path for this step
    pub target_path: String,
    /// Where to place the summary
    pub summary_destination: SummaryDestination,
    /// Hash of the previous prompt (for caching)
    pub previous_prompt_hash: String,
}

/// A step of a plan, in the stage it has reached.
#[derive(Debug, Clone)]
pub enum ExecutionStep {
    AwaitingPrompt(ExecutionStepContext),
    PendingExecution(ExecutionStepContext),
    Executing(ExecutionStepContext),
    PendingSave(ExecutionStepContext),
    Done(ExecutionStepContext),
    Placeholder,
}

/// The context of a step (of no meaning for `Placeholder`).
pub open spec fn context_of(s: ExecutionStep) -> ExecutionStepContext {
    match s {
        ExecutionStep::AwaitingPrompt(c) => c,
        ExecutionStep::PendingExecution(c) => c,
        ExecutionStep::Executing(c) => c,
        ExecutionStep::PendingSave(c) => c,
        ExecutionStep::Done(c) => c,
        ExecutionStep::Placeholder => arbitrary(),
    }
}

/// How far a step has come: 0 awaiting its prompt up to 4 done; -1 for a placeholder.
pub open spec fn stage(s: ExecutionStep) -> int {
    match s {
        ExecutionStep::AwaitingPrompt(_) => 0,
        ExecutionStep::PendingExecution(_) => 1,
        ExecutionStep::Executing(_) => 2,
        ExecutionStep::PendingSave(_) => 3,
        ExecutionStep::Done(_) => 4,
        ExecutionStep::Placeholder => -1,
    }
}

impl ExecutionStep {
    /// Turn `AwaitingPrompt` → `PendingExecution`, recording the built prompt.
    pub fn into_pending_exec(self, prompt: ADPrompt) -> (r: ExecutionStep)
        requires
            self is AwaitingPrompt,
        ensures
            r is PendingExecution,
            context_of(r) == (ExecutionStepContext { prompt: context_of(r).prompt, ..context_of(self) }),
            context_of(r).prompt matches Some(p) && *p == prompt,
    {
        match self {
            ExecutionStep::AwaitingPrompt(ctx) => {
                let mut ctx = ctx;
                ctx.prompt = Some(Arc::new(prompt));
                ExecutionStep::PendingExecution(ctx)
            },
            _ => {
                proof {
                    assert(false);
                }
                ExecutionStep::Placeholder
            },
        }
    }

    /// Turn `PendingExecution` → `PendingSave` in one go, with the context
    /// unchanged.
    pub fn into_executing(self) -> (r: ExecutionStep)
        requires
            self is PendingExecution,
        ensures
            r == ExecutionStep::PendingSave(context_of(self)),
    {
        match self {
            ExecutionStep::PendingExecution(ctx) => ExecutionStep::PendingSave(ctx),
            _ => {
                proof {
                    assert(false);
                }
                ExecutionStep::Placeholder
            },
        }
    }

    /// Turn `PendingExecution` → `PendingSave`, recording the summary.
    pub fn into_pending_save(self, summary: ADSummary) -> (r: ExecutionStep)
        requires
            self is PendingExecution,
        ensures
            r is PendingSave,
            context_of(r) == (ExecutionStepContext { summary: context_of(r).summary, ..context_of(self) }),
            context_of(r).summary matches Some(s) && *s == summary,
    {
        match self {
            ExecutionStep::PendingExecution(ctx) => {
                let mut ctx = ctx;
                ctx.summary = Some(Arc::new(summary));
                ExecutionStep::PendingSave(ctx)
            },
            _ => {
                proof {
                    assert(false);
                }
                ExecutionStep::Placeholder
            },
        }
    }

    /// Turn `PendingSave` → `Done`.
    pub fn into_done(self) -> (r: ExecutionStep)
        requires
            self is PendingSave,
        ensures
            r == ExecutionStep::Done(context_of(self)),
    {
        match self {
            ExecutionStep::PendingSave(ctx) => ExecutionStep::Done(ctx),
            _ => {
                proof {
                    assert(false);
                }
                ExecutionStep::Placeholder
            },
        }
    }
}

impl Default for ExecutionStep {
    fn default() -> (s: ExecutionStep)
        ensures
            s is Placeholder,
    {
        ExecutionStep::Placeholder
    }
}

/// A step that goes through its stages in order ends with the prompt and the
/// summary it was given, and with the rest of the context it started with.
pub proof fn law_stages_keep_context(
    start: ExecutionStepContext,
    pending: ExecutionStep,
    saved: ExecutionStep,
    done: ExecutionStep,
    prompt: ADPrompt,
    summary: ADSummary,
)
    requires
        pending is PendingExecution,
        context_of(pending) == (ExecutionStepContext { prompt: context_of(pending).prompt, ..start }),
        context_of(pending).prompt matches Some(p) && *p == prompt,
        saved is PendingSave,
        context_of(saved) == (ExecutionStepContext { summary: context_of(saved).summary, ..context_of(pending) }),
        context_of(saved).summary matches Some(s) && *s == summary,
        done == ExecutionStep::Done(context_of(saved)),
    ensures
        stage(done) == 4,
        context_of(done).prompt matches Some(p) && *p == prompt,
        context_of(done).summary matches Some(s) && *s == summary,
        context_of(done).target_path == start.target_path,
        context_of(done).prompt_sections == start.prompt_sections,
        context_of(done).summary_destination == start.summary_destination,
        context_of(done).previous_prompt_hash == start.previous_prompt_hash,
{
}

/// A node of the documentation tree: a file or a directory with its summary.
#[derive(Debug)]
pub enum ADTreeNode {
    File(ADFile),
    Dir(ADDir),
}

/// A file of the documentation tree.
#[derive(Debug)]
pub struct ADFile {
    pub path: String,
    pub summary: String,
    pub size: u64,
}

/// A directory of the documentation tree.
#[derive(Debug)]
pub struct ADDir {
    pub path: String,
    pub children: Vec<ADTreeNode>,
    pub summary: String,
    pub size: u64,
}

/// The documentation tree for a crawled directory: as yet an empty directory
/// node with an empty path, no summary and size 0, whatever was crawled.
pub fn create_tree_from_fs_tree(dir: &Directory) -> (n: ADTreeNode)
    ensures
        n matches ADTreeNode::Dir(d) && d.path@.len() == 0 && d.children@.len() == 0
            && d.summary@.len() == 0 && d.size == 0,
{
    ADTreeNode::Dir(ADDir { path: String::new(), children: Vec::new(), summary: String::new(), size: 0 })
}

/// A run of autodoc on the tree at `repo_root`.
pub struct AutodocSession<C: FileCrawler> {
    crawler: C,
    repo_root: String,
    config: AutodocConfig,
    target_tree: TreeNode,
}

impl<C: FileCrawler> AutodocSession<C> {
    /// Starts the crawl that a session needs of its target: with no depth
    /// limit given (so the crawler's own applies) and with hidden entries.
    pub fn crawl_target(crawler: &C, target: String) -> (r: (CrawlSession, CrawlAction))
        ensures
            r.0@.max_depth == crawler.depth_limit(None),
            r.0@.include_hidden,
            r.0@.drop_at_limit,
            r.0@.frames.len() == 0,
            r.0@.phase == PhaseView::Probing(target@),
            r.1 matches CrawlAction::Probe { path } && path@ == target@,
            sound(r.0@),
    {
        crawler.crawl(target, None, true)
    }

    /// A session on `target`, with the tree that its crawl gave and its settings.
    pub fn new(target: String, crawler: C, target_tree: TreeNode, config: AutodocConfig) -> (s:
        AutodocSession<C>)
        ensures
            s.repo_root() == target@,
            s.target_tree() == target_tree,
            s.config() == config,
            s.crawler() == crawler,
    {
        AutodocSession { crawler, repo_root: target, config, target_tree }
    }

    /// The root of the session's tree.
    pub closed spec fn repo_root(&self) -> Seq<char> {
        self.repo_root@
    }

    /// The crawled tree.
    pub closed spec fn target_tree(&self) -> TreeNode {
        self.target_tree
    }

    /// The session's settings.
    pub closed spec fn config(&self) -> AutodocConfig {
        self.config
    }

    /// The session's crawler.
    pub closed spec fn crawler(&self) -> C {
        self.crawler
    }

    /// Runs the session. For now a run renders the crawled tree: this gives
    /// the tree to render.
    pub fn run(&self) -> (t: &TreeNode)
        ensures
            *t == self.target_tree(),
    {
        &self.target_tree
    }
}

} // verus!
