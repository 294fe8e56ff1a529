use libssg::error::Error;
use libssg::match_patterns::MatchPattern;
use libssg::metadata::Metadata;
use libssg::metadata::MetaValue;
use libssg::renderers::Renderer;
use libssg::route::Route;
use libssg::rules::copy;
use libssg::rules::match_pattern;
use libssg::rules::ResourceEntry;
use libssg::uuid_from_path;
use libssg::Config;
use libssg::State;
use libssg::WriteKind;

fn test_state(force: bool) -> State {
    let config = Config {
        templates_dir: "/site/templates".to_string(),
        output_dir: "/site/_site".to_string(),
        output_dirname: "_site".to_string(),
        current_dir: "/site".to_string(),
        force_generate: force,
        verbosity: 0,
    };
    State::new(config, minijinja::Environment::new())
}

struct FixedCompiler {
    body: String,
}

impl libssg::compilers::Compiler for FixedCompiler {
    fn compile(&mut self, _state: &mut State, _resource: &str) -> Result<Metadata, Error> {
        let mut m = Metadata::new();
        m.insert("body".to_string(), MetaValue::Str(self.body.clone()));
        Ok(m)
    }
}

struct FailingCompiler;

impl libssg::compilers::Compiler for FailingCompiler {
    fn compile(&mut self, _state: &mut State, resource: &str) -> Result<Metadata, Error> {
        Err(Error::Compiler(format!("cannot compile {}", resource)))
    }
}

struct NoopStep;

impl libssg::renderers::BFn for NoopStep {
    fn call(&self, _context: &mut Metadata) -> Result<String, Error> {
        Ok(String::new())
    }
}

#[test]
fn staleness_forced_missing_and_times() {
    let mut s = test_state(true);
    // force wins regardless of recorded times
    s.record_mtime("/site/_site/a.html".to_string(), 100);
    s.record_mtime("/site/a.md".to_string(), 50);
    assert!(s.check_mtime("a.html", "a.md"));

    let mut s = test_state(false);
    // missing destination record: stale
    assert!(s.check_mtime("a.html", "a.md"));
    // destination at least as new as the source: cached
    s.record_mtime("/site/_site/a.html".to_string(), 100);
    s.record_mtime("/site/a.md".to_string(), 50);
    assert!(!s.check_mtime("a.html", "a.md"));
    // tie favors the cache
    s.record_mtime("/site/a.md".to_string(), 100);
    assert!(!s.check_mtime("a.html", "a.md"));
    // strictly newer source: stale
    s.record_mtime("/site/a.md".to_string(), 101);
    assert!(s.check_mtime("a.html", "a.md"));
    // unreadable source: fail open to rebuild
    assert!(s.check_mtime("a.html", "other.md"));
}

#[test]
fn cached_page_still_gets_compiled_metadata() {
    let mut s = test_state(false);
    // everything fresh: source and template older than the destination
    s.record_mtime("/site/_site/posts/a.html".to_string(), 100);
    s.record_mtime("/site/posts/a.md".to_string(), 50);
    s.record_mtime("/site/templates/default".to_string(), 50);
    let mut compiler = FixedCompiler { body: "hello".to_string() };
    let id = s
        .add_page(
            "posts/a.html".to_string(),
            "posts/a.md".to_string(),
            &mut compiler,
            Renderer::LoadAndApplyTemplate("default"),
            Some(50),
            7,
        )
        .ok()
        .unwrap();
    assert_eq!(id, uuid_from_path("posts/a.md"));
    // the artifact carries the compiler's metadata even though it is cached
    let artifact = s.artifacts().get(id).unwrap();
    assert!(matches!(artifact.metadata.get("body"), Some(MetaValue::Str(b)) if b == "hello"));
    // and being cached, committing writes nothing
    let plan = s.finish().ok().unwrap();
    assert_eq!(plan.len(), 0);
}

#[test]
fn at_most_one_action_per_destination() {
    let mut s = test_state(true);
    s.copy_page("a.css".to_string(), "out.css".to_string(), None, 1);
    s.copy_page("b.css".to_string(), "out.css".to_string(), None, 2);
    let plan = s.finish().ok().unwrap();
    // the second registration replaced the first: exactly one write
    assert_eq!(plan.len(), 1);
    assert_eq!(plan[0].dest, "/site/_site/out.css");
    assert!(matches!(&plan[0].kind, WriteKind::CopyFrom(src) if src == "b.css"));
}

#[test]
fn commit_processes_actions_in_ascending_updated_order() {
    let mut s = test_state(true);
    s.copy_page("c".to_string(), "dc".to_string(), None, 20);
    s.copy_page("a".to_string(), "da".to_string(), None, 30);
    s.copy_page("b".to_string(), "db".to_string(), None, 10);
    let plan = s.finish().ok().unwrap();
    assert_eq!(plan.len(), 3);
    assert_eq!(plan[0].updated_date, 10);
    assert_eq!(plan[1].updated_date, 20);
    assert_eq!(plan[2].updated_date, 30);
    assert_eq!(plan[0].dest, "/site/_site/db");
    assert_eq!(plan[1].dest, "/site/_site/dc");
    assert_eq!(plan[2].dest, "/site/_site/da");
}

#[test]
fn commit_order_is_stable_for_equal_timestamps() {
    let mut s = test_state(true);
    s.copy_page("x1".to_string(), "d1".to_string(), None, 10);
    s.copy_page("x2".to_string(), "d2".to_string(), None, 10);
    s.copy_page("x3".to_string(), "d3".to_string(), None, 5);
    let plan = s.finish().ok().unwrap();
    assert_eq!(plan.len(), 3);
    assert_eq!(plan[0].dest, "/site/_site/d3");
    assert_eq!(plan[1].dest, "/site/_site/d1");
    assert_eq!(plan[2].dest, "/site/_site/d2");
}

#[test]
fn copying_a_file_over_itself_fails_loudly() {
    // output directory set to the working directory itself, so a route that
    // keeps the path would overwrite the source
    let config = Config {
        templates_dir: "/site/templates".to_string(),
        output_dir: "/site".to_string(),
        output_dirname: ".".to_string(),
        current_dir: "/site".to_string(),
        force_generate: true,
        verbosity: 0,
    };
    let mut s = State::new(config, minijinja::Environment::new());
    s.copy_page("style.css".to_string(), "style.css".to_string(), None, 1);
    let err = s.finish().err().unwrap();
    assert!(matches!(err, Error::CopySourceIsDestination(p) if p == "/site/style.css"));
}

#[test]
fn absolute_destination_outside_the_project_fails() {
    let mut s = test_state(true);
    s.copy_page("x".to_string(), "/elsewhere/y".to_string(), None, 1);
    let err = s.finish().err().unwrap();
    assert!(matches!(err, Error::Io(_)));
}

#[test]
fn absolute_destination_under_the_project_is_made_relative() {
    let mut s = test_state(true);
    s.copy_page("x".to_string(), "/site/y".to_string(), None, 1);
    let plan = s.finish().ok().unwrap();
    assert_eq!(plan.len(), 1);
    assert_eq!(plan[0].dest, "/site/_site/y");
}

#[test]
fn rule_errors_latch_and_later_rules_are_skipped() {
    let mut s = test_state(true);
    let failing = libssg::rules::create("broken.md".to_string(), FailingCompiler, None, 1);
    s.then(failing);
    // a later rule is skipped: its copy must not be registered
    let entries = vec![ResourceEntry {
        rel_path: "a.css".to_string(),
        modified_date: None,
        updated_date: 1,
    }];
    s.then(copy(MatchPattern::new("a.css"), entries, Route::Id));
    let err = s.finish().err().unwrap();
    assert!(matches!(err, Error::Compiler(m) if m == "cannot compile broken.md"));
    // the error was reported once; a second commit has nothing pending
    let plan = s.finish().ok().unwrap();
    assert_eq!(plan.len(), 0);
}

#[test]
fn a_custom_step_cannot_drive_a_multi_match_rule() {
    let mut s = test_state(true);
    let entries = vec![ResourceEntry {
        rel_path: "posts/a.md".to_string(),
        modified_date: None,
        updated_date: 1,
    }];
    let rule = match_pattern(
        MatchPattern::new("^posts/.*"),
        entries,
        Route::SetExtension("html"),
        Renderer::Custom(Box::new(NoopStep)),
        FixedCompiler { body: "hello".to_string() },
    );
    s.then(rule);
    let err = s.finish().err().unwrap();
    assert!(matches!(err, Error::Configuration(_)));
}

#[test]
fn end_to_end_build_and_cached_rerun() {
    let mut env = minijinja::Environment::new();
    env.add_template_owned("default".to_string(), "<p>{{ body }}</p>".to_string()).unwrap();
    let config = Config {
        templates_dir: "/site/templates".to_string(),
        output_dir: "/site/_site".to_string(),
        output_dirname: "_site".to_string(),
        current_dir: "/site".to_string(),
        force_generate: false,
        verbosity: 0,
    };
    let mut s = State::new(config, env);
    let entries = vec![ResourceEntry {
        rel_path: "posts/a.md".to_string(),
        modified_date: Some(50),
        updated_date: 50,
    }];
    s.then(match_pattern(
        MatchPattern::new("^posts/.*"),
        entries,
        Route::SetExtension("html"),
        Renderer::LoadAndApplyTemplate("default"),
        FixedCompiler { body: "hello".to_string() },
    ));
    let plan = s.finish().ok().unwrap();
    assert_eq!(plan.len(), 1);
    assert_eq!(plan[0].dest, "/site/_site/posts/a.html");
    assert!(matches!(&plan[0].kind, WriteKind::Contents(c) if c == "<p>hello</p>"));

    // an unchanged rerun: the destination is now on disk and newer than both
    // the source and the template, so nothing is generated
    let mut env = minijinja::Environment::new();
    env.add_template_owned("default".to_string(), "<p>{{ body }}</p>".to_string()).unwrap();
    let config = Config {
        templates_dir: "/site/templates".to_string(),
        output_dir: "/site/_site".to_string(),
        output_dirname: "_site".to_string(),
        current_dir: "/site".to_string(),
        force_generate: false,
        verbosity: 0,
    };
    let mut s = State::new(config, env);
    s.record_mtime("/site/_site/posts/a.html".to_string(), 100);
    s.record_mtime("/site/posts/a.md".to_string(), 50);
    s.record_mtime("/site/templates/default".to_string(), 50);
    let entries = vec![ResourceEntry {
        rel_path: "posts/a.md".to_string(),
        modified_date: Some(50),
        updated_date: 50,
    }];
    s.then(match_pattern(
        MatchPattern::new("^posts/.*"),
        entries,
        Route::SetExtension("html"),
        Renderer::LoadAndApplyTemplate("default"),
        FixedCompiler { body: "hello".to_string() },
    ));
    let plan = s.finish().ok().unwrap();
    assert_eq!(plan.len(), 0);
}

#[test]
fn pipelines_chain_through_the_body_entry() {
    let mut env = minijinja::Environment::new();
    env.add_template_owned("post".to_string(), "<article>{{ body }}</article>".to_string())
        .unwrap();
    env.add_template_owned("default".to_string(), "<html>{{ body }}</html>".to_string()).unwrap();
    let config = Config {
        templates_dir: "/site/templates".to_string(),
        output_dir: "/site/_site".to_string(),
        output_dirname: "_site".to_string(),
        current_dir: "/site".to_string(),
        force_generate: true,
        verbosity: 0,
    };
    let mut s = State::new(config, env);
    let entries = vec![ResourceEntry {
        rel_path: "posts/a.md".to_string(),
        modified_date: None,
        updated_date: 1,
    }];
    s.then(match_pattern(
        MatchPattern::new("^posts/.*"),
        entries,
        Route::SetExtension("html"),
        Renderer::Pipeline(vec![
            Renderer::LoadAndApplyTemplate("post"),
            Renderer::LoadAndApplyTemplate("default"),
        ]),
        FixedCompiler { body: "hi".to_string() },
    ));
    let plan = s.finish().ok().unwrap();
    assert_eq!(plan.len(), 1);
    assert!(matches!(&plan[0].kind,
        WriteKind::Contents(c) if c == "<html><article>hi</article></html>"));
}

#[test]
fn copies_resolve_through_routes_and_keep_sources() {
    let mut s = test_state(true);
    let entries = vec![
        ResourceEntry { rel_path: "css/a.css".to_string(), modified_date: None, updated_date: 2 },
        ResourceEntry { rel_path: "img/b.png".to_string(), modified_date: None, updated_date: 1 },
        ResourceEntry { rel_path: "notes.txt".to_string(), modified_date: None, updated_date: 3 },
    ];
    s.then(copy(MatchPattern::new("^css/.*"), entries, Route::Id));
    let plan = s.finish().ok().unwrap();
    assert_eq!(plan.len(), 1);
    assert_eq!(plan[0].dest, "/site/_site/css/a.css");
    assert!(matches!(&plan[0].kind, WriteKind::CopyFrom(src) if src == "css/a.css"));
}

#[test]
fn url_root_reaches_the_render_context() {
    let mut env = minijinja::Environment::new();
    env.add_template_owned("default".to_string(), "{{ ROOT_PREFIX }}{{ body }}".to_string())
        .unwrap();
    let config = Config {
        templates_dir: "/site/templates".to_string(),
        output_dir: "/site/_site".to_string(),
        output_dirname: "_site".to_string(),
        current_dir: "/site".to_string(),
        force_generate: true,
        verbosity: 0,
    };
    let mut s = State::new(config, env).url_root("https://example.com".to_string());
    let entries = vec![ResourceEntry {
        rel_path: "posts/a.md".to_string(),
        modified_date: None,
        updated_date: 1,
    }];
    s.then(match_pattern(
        MatchPattern::new("^posts/.*"),
        entries,
        Route::SetExtension("html"),
        Renderer::LoadAndApplyTemplate("default"),
        FixedCompiler { body: "x".to_string() },
    ));
    let plan = s.finish().ok().unwrap();
    assert_eq!(plan.len(), 1);
    assert!(matches!(&plan[0].kind, WriteKind::Contents(c) if c == "https://example.comx"));
}

#[test]
fn an_empty_pipeline_renders_the_empty_string() {
    let mut s = test_state(true);
    let entries = vec![ResourceEntry {
        rel_path: "posts/a.md".to_string(),
        modified_date: None,
        updated_date: 1,
    }];
    s.then(match_pattern(
        MatchPattern::new("^posts/.*"),
        entries,
        Route::SetExtension("html"),
        Renderer::Pipeline(vec![]),
        FixedCompiler { body: "ignored".to_string() },
    ));
    let plan = s.finish().ok().unwrap();
    assert_eq!(plan.len(), 1);
    assert!(matches!(&plan[0].kind, WriteKind::Contents(c) if c.is_empty()));
}
