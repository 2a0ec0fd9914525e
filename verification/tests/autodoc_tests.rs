use autodoc::autodoc::{
    create_tree_from_fs_tree, ADPrompt, ADSummary, ADTreeNode, AutodocConfig, AutodocSession,
    ExecutionStep, ExecutionStepContext, PromptSection, SummaryDestination, SummaryMode,
};
use autodoc::crawl::CrawlAction;
use autodoc::file_crawler::{DefaultFileCrawler, DirectoryBuilder, TreeNode};
use autodoc::plan::{join_prompt_sections, mark_saved, record_summary, tick, PlanStep};

fn context() -> ExecutionStepContext {
    ExecutionStepContext {
        prompt_sections: vec![PromptSection::StaticString(String::from("hi"))],
        prompt: None,
        summary: None,
        target_path: String::from("src/lib.rs"),
        summary_destination: SummaryDestination::NewFile(String::from("src/lib.md")),
        previous_prompt_hash: String::from("abc"),
    }
}

#[test]
fn execution_step_stages() {
    let step = ExecutionStep::AwaitingPrompt(context());
    let step = step.into_pending_exec(ADPrompt(String::from("prompt")));
    match &step {
        ExecutionStep::PendingExecution(ctx) => {
            assert_eq!(ctx.prompt.as_ref().unwrap().as_str(), "prompt");
            assert_eq!(ctx.target_path, "src/lib.rs");
        }
        _ => panic!("expected PendingExecution"),
    }
    let saved = step.into_pending_save(ADSummary::new(String::from("summary")));
    let done = saved.into_done();
    match &done {
        ExecutionStep::Done(ctx) => {
            assert_eq!(ctx.summary.as_ref().unwrap().as_str(), "summary");
            assert_eq!(ctx.prompt.as_ref().unwrap().as_str(), "prompt");
            assert_eq!(ctx.previous_prompt_hash, "abc");
        }
        _ => panic!("expected Done"),
    }
    let pending_save = ExecutionStep::PendingExecution(context()).into_executing();
    match &pending_save {
        ExecutionStep::PendingSave(ctx) => {
            assert!(ctx.summary.is_none());
            assert!(ctx.prompt.is_none());
            assert_eq!(ctx.target_path, "src/lib.rs");
            assert_eq!(ctx.previous_prompt_hash, "abc");
        }
        _ => panic!("expected PendingSave"),
    }
    assert!(matches!(ExecutionStep::default(), ExecutionStep::Placeholder));
}

#[test]
fn join_sections_with_blank_lines() {
    let sections = vec![
        PromptSection::StaticString(String::from("a")),
        PromptSection::StaticString(String::from("b")),
        PromptSection::StaticString(String::from("c")),
    ];
    assert_eq!(join_prompt_sections(&sections).as_str(), "a\n\nb\n\nc");
    assert_eq!(join_prompt_sections(&vec![]).as_str(), "");
}

#[test]
fn plan_runs_to_completion() {
    let mut plan = vec![
        PlanStep::AwaitingPrompt(vec![
            PromptSection::StaticString(String::from("Summarise:")),
            PromptSection::Placeholder(1),
        ]),
        PlanStep::AwaitingPrompt(vec![PromptSection::StaticString(String::from("leaf"))]),
    ];
    let out = tick(&mut plan);
    assert!(out.progressed);
    assert!(out.started.is_empty());
    assert!(!out.all_done);
    assert!(matches!(plan[0], PlanStep::AwaitingPrompt(_)));
    assert!(matches!(plan[1], PlanStep::PendingExecution(ref p) if p.as_str() == "leaf"));

    let out = tick(&mut plan);
    assert_eq!(out.started, vec![1]);
    assert!(matches!(plan[1], PlanStep::Executing(_)));

    let out = tick(&mut plan);
    assert!(!out.progressed);

    record_summary(&mut plan, 1, ADSummary::new(String::from("a leaf")));
    let text = mark_saved(&mut plan, 1);
    assert_eq!(text, "a leaf");

    let out = tick(&mut plan);
    assert!(out.progressed);
    assert!(matches!(plan[0], PlanStep::PendingExecution(ref p) if p.as_str() == "Summarise:\n\na leaf"));
    let out = tick(&mut plan);
    assert_eq!(out.started, vec![0]);
    record_summary(&mut plan, 0, ADSummary::new(String::from("root")));
    mark_saved(&mut plan, 0);
    let out = tick(&mut plan);
    assert!(out.all_done);
    assert!(!out.progressed);
}

#[test]
fn later_step_sees_earlier_progress_in_same_pass() {
    let mut plan = vec![
        PlanStep::PendingSave(ADSummary::new(String::from("first"))),
        PlanStep::AwaitingPrompt(vec![PromptSection::Placeholder(0)]),
    ];
    let out = tick(&mut plan);
    assert!(out.progressed);
    assert!(matches!(plan[1], PlanStep::PendingExecution(ref p) if p.as_str() == "first"));
}

#[test]
fn empty_tree_for_crawled_directory() {
    let d = DirectoryBuilder::new(String::from("src")).build();
    match create_tree_from_fs_tree(&d) {
        ADTreeNode::Dir(dir) => {
            assert!(dir.path.is_empty());
            assert!(dir.children.is_empty());
            assert!(dir.summary.is_empty());
            assert_eq!(dir.size, 0);
        }
        _ => panic!("expected a directory"),
    }
}

#[test]
fn session_crawls_whole_tree_and_runs() {
    let crawler = DefaultFileCrawler::new();
    let (_, first) = AutodocSession::crawl_target(&crawler, String::from("repo"));
    assert!(matches!(first, CrawlAction::Probe { ref path } if path == "repo"));
    let tree = TreeNode::from(DirectoryBuilder::new(String::from("repo")).build());
    let config = AutodocConfig { mode: SummaryMode::Shadow, ignore_paths: vec![] };
    let session = AutodocSession::new(String::from("repo"), crawler, tree, config);
    match session.run() {
        TreeNode::Directory(d) => assert_eq!(d.name, "repo"),
        _ => panic!("expected a directory"),
    }
}

#[test]
fn acyclic_plan_progresses_on_every_idle_pass_and_finishes_in_bounded_moves() {
    // A chain: step 0 needs step 2, step 2 needs step 1, step 1 needs nothing.
    let mut plan = vec![
        PlanStep::AwaitingPrompt(vec![PromptSection::Placeholder(2)]),
        PlanStep::AwaitingPrompt(vec![PromptSection::StaticString(String::from("base"))]),
        PlanStep::AwaitingPrompt(vec![
            PromptSection::StaticString(String::from("over")),
            PromptSection::Placeholder(1),
        ]),
    ];
    let mut moves = 0;
    loop {
        let out = tick(&mut plan);
        moves += 1;
        if out.all_done {
            break;
        }
        // Nothing was in flight before this pass, and some step had no summary:
        // the pass moved a step on.
        assert!(out.progressed);
        for &i in &out.started {
            record_summary(&mut plan, i, ADSummary::new(format!("s{}", i)));
            moves += 1;
            mark_saved(&mut plan, i);
            moves += 1;
        }
    }
    assert!(plan.iter().all(|s| matches!(s, PlanStep::Done(_))));
    // The final pass moves nothing on; every other move does.
    assert!(moves - 1 <= 4 * plan.len());
}
