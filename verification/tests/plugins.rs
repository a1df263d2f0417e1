use internet_downloader_backend::download::hosts::request::{Request, RequestKind, Utils};
use internet_downloader_backend::download::hosts::tasks::{
    task_kind, FileTask, FolderTask, TaskKind, TaskType,
};
use internet_downloader_backend::plugin_patterns::{pattern_for, to_regex};
use internet_downloader_backend::plugin_registry::{
    is_plugin_file, should_interrupt, ParseDecision, PluginError, PluginId, PluginRegistry,
    PluginSource,
};
use internet_downloader_backend::utils::urls::Host;

fn plugin(name: &str, supports: &[&str], patterns: Option<&[&str]>, priority: i32) -> PluginSource {
    PluginSource {
        path: format!("./plugins/{}", name),
        name: name.to_owned(),
        supports: Some(supports.iter().map(|s| s.to_string()).collect()),
        supports_regex: patterns.map(|list| list.iter().map(|s| s.to_string()).collect()),
        priority,
    }
}

fn chosen(decision: ParseDecision) -> Option<usize> {
    match decision {
        ParseDecision::Run { plugin: PluginId(id), .. } => Some(id),
        _ => None,
    }
}

#[test]
fn patterns_stand_for_a_url_and_all_below_it() {
    assert_eq!(
        to_regex("https://www.example.org/a.b/").unwrap(),
        r"^https?://(www\.)?example\.org/a\.b(?:/.*)?$"
    );
    assert_eq!(
        to_regex("http://example.org").unwrap(),
        to_regex("https://www.example.org/").unwrap()
    );
    assert_eq!(pattern_for(None, "/x"), r"^https?://(www\.)?/x(?:/.*)?$");
    assert!(to_regex("example.org").is_none());
}

#[test]
fn the_plugin_that_says_most_of_a_url_is_asked() {
    let mut registry = PluginRegistry::new(2);
    registry.add_plugin(plugin("wide.js", &["video.org"], None, 9)).unwrap();
    registry.add_plugin(plugin("narrow.js", &["video.org/watch"], None, 0)).unwrap();
    assert_eq!(chosen(registry.parse("https://video.org/watch/1")), Some(1));
    assert_eq!(chosen(registry.parse("http://www.video.org/watch")), None);
    assert_eq!(chosen(registry.parse("http://video.org/watch")), Some(1));
    assert_eq!(chosen(registry.parse("https://video.org/other")), Some(0));
    assert_eq!(registry.parse("https://elsewhere.org/"), ParseDecision::NoPlugin);
    assert_eq!(registry.parse("no url"), ParseDecision::BadUrl);
}

#[test]
fn ties_go_to_the_priority_and_then_to_the_name() {
    let mut registry = PluginRegistry::new(1);
    registry.add_plugin(plugin("b.js", &["h.org"], None, 1)).unwrap();
    registry.add_plugin(plugin("c.js", &["h.org"], None, 2)).unwrap();
    registry.add_plugin(plugin("a.js", &["h.org"], None, 2)).unwrap();
    assert_eq!(chosen(registry.parse("https://h.org/x")), Some(2));
}

#[test]
fn excluded_urls_are_not_asked_about() {
    let mut registry = PluginRegistry::new(1);
    registry.add_plugin(plugin("p.js", &["h.org", "!h.org/private"], None, 0)).unwrap();
    assert_eq!(chosen(registry.parse("https://h.org/public")), Some(0));
    assert_eq!(registry.parse("https://h.org/private/x"), ParseDecision::NoPlugin);
}

#[test]
fn patterns_are_held_against_any_url() {
    let mut registry = PluginRegistry::new(1);
    registry.add_plugin(plugin("p.js", &[], Some(&[r"\.iso$", "("]), 0)).unwrap();
    assert_eq!(chosen(registry.parse("https://any.org/disk.iso")), Some(0));
    assert_eq!(registry.parse("https://any.org/disk.img"), ParseDecision::NoPlugin);
}

#[test]
fn known_parts_of_a_url_lead_to_the_same_plugin() {
    let mut registry = PluginRegistry::new(1);
    registry.add_plugin(plugin("p.js", &["h.org"], None, 0)).unwrap();
    let url = "https://h.org/x";
    assert_eq!(chosen(registry.parse_known(url, true, Some(Host::Domain("h.org".to_owned())))), Some(0));
    assert_eq!(registry.parse_known(url, true, None), ParseDecision::NoPlugin);
    assert_eq!(registry.parse_known(url, false, None), ParseDecision::BadUrl);
    assert_eq!(registry.find_best_plugin(url, &vec![0]), Some(PluginId(0)));
    assert_eq!(registry.find_best_plugin(url, &vec![]), None);
}

#[test]
fn plugins_must_say_what_they_are_for() {
    let mut registry = PluginRegistry::new(1);
    let silent = PluginSource {
        path: "p".to_owned(),
        name: "n".to_owned(),
        supports: None,
        supports_regex: None,
        priority: 0,
    };
    assert!(matches!(registry.add_plugin(silent), Err(PluginError::NoSupports)));
    match registry.add_plugin(plugin("p.js", &["h.org", "https://"], None, 0)) {
        Err(PluginError::BadUrl(text)) => assert_eq!(text, "https://"),
        _ => panic!("something that is no url was taken"),
    }
    assert_eq!(registry.parse("https://h.org/"), ParseDecision::NoPlugin);
}

#[test]
fn work_goes_to_the_worker_with_least_to_do() {
    let mut registry = PluginRegistry::new(2);
    registry.add_plugin(plugin("p.js", &["h.org"], None, 0)).unwrap();
    let id = PluginId(0);
    let url = "https://h.org/x";
    assert_eq!(registry.parse(url), ParseDecision::Run { plugin: id, worker: 0, give: true });
    assert_eq!(registry.parse(url), ParseDecision::Run { plugin: id, worker: 1, give: true });
    registry.finished(1);
    assert_eq!(registry.select_best_worker(id), 1);
    assert_eq!(registry.parse(url), ParseDecision::Run { plugin: id, worker: 1, give: false });
    registry.finished(0);
    registry.finished(1);
    assert_eq!(registry.parse(url), ParseDecision::Run { plugin: id, worker: 0, give: false });
}

#[test]
fn a_worker_that_has_a_plugin_is_preferred() {
    let mut registry = PluginRegistry::new(3);
    registry.add_plugin(plugin("a.js", &["a.org"], None, 0)).unwrap();
    registry.add_plugin(plugin("b.js", &["b.org"], None, 0)).unwrap();
    registry.parse("https://a.org/");
    registry.parse("https://b.org/");
    registry.finished(0);
    registry.finished(1);
    assert_eq!(registry.select_best_worker(PluginId(1)), 1);
    assert_eq!(registry.select_best_worker(PluginId(0)), 0);
}

#[test]
fn slow_plugins_are_stopped() {
    assert!(!should_interrupt(0, 1_000_000));
    assert!(!should_interrupt(100, 5100));
    assert!(should_interrupt(100, 5101));
    assert!(!should_interrupt(100, 50));
    assert!(is_plugin_file(Some("js")));
    assert!(is_plugin_file(None));
    assert!(!is_plugin_file(Some("txt")));
}

#[test]
fn requests_are_built_step_by_step() {
    let utils = Utils {};
    let mut request = utils.request("https://h.org".to_owned());
    assert_eq!(request.url(), "https://h.org");
    assert_eq!(request.kind(), Some(RequestKind::Get));
    assert_eq!(request.sent_body(), None);
    request.method("PoST".to_owned());
    assert_eq!(request.kind(), Some(RequestKind::Post));
    request.method("put".to_owned());
    assert_eq!(request.kind(), None);
    request.body("b".to_owned());
    assert_eq!(request.sent_body(), Some(&"b".to_owned()));
    request.header("k".to_owned(), "1".to_owned());
    request.header("k".to_owned(), "2".to_owned());
    assert_eq!(request.get_header("k"), Some(&"2".to_owned()));
    assert_eq!(request.get_header("x"), None);
    assert_eq!(request.headers().len(), 2);
    assert_eq!(utils.log("hi"), "[PLUGIN] hi");
    assert_eq!(Request::new("u".to_owned()).get_header("k"), None);
}

#[test]
fn tasks_name_their_kind() {
    assert_eq!(task_kind(None), Some(TaskKind::File));
    assert_eq!(task_kind(Some("file")), Some(TaskKind::File));
    assert_eq!(task_kind(Some("folder")), Some(TaskKind::Folder));
    assert_eq!(task_kind(Some("link")), None);
    let file = FileTask::new("u".to_owned(), "n".to_owned());
    assert_eq!(file.file_name(), "n");
    let folder = FolderTask::new("d".to_owned(), vec![TaskType::File(file)]);
    assert_eq!(folder.folder_name(), "d");
}
