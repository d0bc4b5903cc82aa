use notos::discovery::Platform;
use notos::editor::{EditorTab, LineEnding, TabIdSource};
use notos::host::{get_ed_ctx, handle_plugin_action};
use notos::loader::{load_plugin_from_file, Export, LoadFailure, LoadOutcome};
use notos::plugin::{ManagerState, PluginManager};
use notos::sdk::{EditorContext, NotosPlugin, PluginAction, Simple, SimplePlugin};
use std::cell::RefCell;
use std::rc::Rc;

/// A stand-in for an opened library: its file name and what it exports.
struct FakeLibrary {
    file: String,
    exports: Vec<&'static str>,
}

/// What the hooks of all plugins of a test write down, in calling order.
type Journal = Rc<RefCell<Vec<String>>>;

/// A plugin that writes every call down and answers as it was told to.
struct Scripted {
    id: String,
    journal: Journal,
    menu_answer: Option<&'static str>,
    selection_answer: Option<&'static str>,
}

impl NotosPlugin for Scripted {
    fn id(&self) -> &str {
        &self.id
    }

    fn name(&self) -> &str {
        "Scripted"
    }

    fn on_load(&mut self, _ctx: &egui::Context) {
        self.journal.borrow_mut().push(format!("{}:on_load", self.id));
    }

    fn ui(&mut self, _ctx: &egui::Context, ed: &EditorContext) -> PluginAction {
        self.journal.borrow_mut().push(format!("{}:ui:{}", self.id, ed.content));
        match self.selection_answer {
            Some(text) => PluginAction::ReplaceSelection(text.to_string()),
            None => PluginAction::Nothing,
        }
    }

    fn menu_ui(&mut self, _ui: &mut egui::Ui, ed: &EditorContext) -> PluginAction {
        self.journal.borrow_mut().push(format!("{}:menu_ui:{}", self.id, ed.content));
        match self.menu_answer {
            Some(text) => PluginAction::ReplaceAll(text.to_string()),
            None => PluginAction::Nothing,
        }
    }

    fn on_unload(&mut self) {
        self.journal.borrow_mut().push(format!("{}:on_unload", self.id));
    }
}

/// The exports of the file of this name in the make-believe directory.
fn exports_of(file: &str) -> Option<Vec<&'static str>> {
    match file {
        "good.so" | "second.so" | "third.so" | "UPPER.SO" | "win.dll" | "mac.dylib" => {
            Some(vec!["_create_plugin", "_destroy_plugin"])
        }
        "only_create.so" => Some(vec!["_create_plugin"]),
        "only_destroy.so" => Some(vec!["_destroy_plugin"]),
        "empty.so" => Some(vec![]),
        _ => None,
    }
}

/// Scans `listing` into `manager` with the make-believe directory, and
/// returns the names of the files opened and of the libraries retained.
fn scan(
    manager: &mut PluginManager<Scripted>,
    listing: Option<Vec<&str>>,
    journal: &Journal,
) -> (Vec<String>, Vec<String>) {
    scan_on(Platform::Unix, manager, listing, journal)
}

/// As `scan`, on the platform given.
fn scan_on(
    platform: Platform,
    manager: &mut PluginManager<Scripted>,
    listing: Option<Vec<&str>>,
    journal: &Journal,
) -> (Vec<String>, Vec<String>) {
    let opened = RefCell::new(Vec::new());
    let retained = RefCell::new(Vec::new());
    let open = |file: &String| {
        opened.borrow_mut().push(file.clone());
        exports_of(file).map(|exports| FakeLibrary { file: file.clone(), exports })
    };
    let resolve = |library: &FakeLibrary, export: Export| {
        if library.exports.contains(&export.symbol()) {
            Some(export)
        } else {
            None
        }
    };
    let construct = |library: &FakeLibrary, create: Export, destroy: Export| {
        assert_eq!(create, Export::Create);
        assert_eq!(destroy, Export::Destroy);
        Scripted {
            id: library.file.clone(),
            journal: journal.clone(),
            menu_answer: None,
            selection_answer: None,
        }
    };
    let retain = |library: FakeLibrary| retained.borrow_mut().push(library.file);
    let listing = listing.map(|names| names.into_iter().map(String::from).collect());
    manager.load_plugins(listing, platform, &open, &resolve, &construct, &retain);
    (opened.into_inner(), retained.into_inner())
}

#[test]
fn new_manager_is_empty() {
    let manager: PluginManager<Scripted> = PluginManager::new();
    assert_eq!(manager.state(), ManagerState::Empty);
    assert_eq!(manager.len(), 0);
}

#[test]
fn missing_directory_gives_ready_manager_without_plugins() {
    let journal = Journal::default();
    let mut manager = PluginManager::new();
    let (opened, _) = scan(&mut manager, None, &journal);
    assert_eq!(manager.state(), ManagerState::Ready);
    assert_eq!(manager.len(), 0);
    assert!(opened.is_empty());
}

#[test]
fn empty_directory_gives_ready_manager_without_plugins() {
    let journal = Journal::default();
    let mut manager = PluginManager::new();
    let (opened, _) = scan(&mut manager, Some(vec![]), &journal);
    assert_eq!(manager.state(), ManagerState::Ready);
    assert_eq!(manager.len(), 0);
    assert!(opened.is_empty());
}

#[test]
fn attempt_on_library_with_both_exports_loads() {
    let journal = Journal::default();
    let open = |file: &String| exports_of(file).map(|exports| FakeLibrary { file: file.clone(), exports });
    let resolve = |library: &FakeLibrary, export: Export| {
        library.exports.contains(&export.symbol()).then_some(export)
    };
    let construct = |library: &FakeLibrary, _create: Export, _destroy: Export| Scripted {
        id: library.file.clone(),
        journal: journal.clone(),
        menu_answer: None,
        selection_answer: None,
    };
    let retain = |_library: FakeLibrary| {};
    let outcome = load_plugin_from_file(&"good.so".to_string(), &open, &resolve, &construct, &retain);
    match outcome {
        LoadOutcome::Loaded(plugin) => assert_eq!(plugin.id(), "good.so"),
        LoadOutcome::Skipped(failure) => panic!("skipped: {:?}", failure),
    }
    let outcome = load_plugin_from_file(&"absent.so".to_string(), &open, &resolve, &construct, &retain);
    assert!(matches!(outcome, LoadOutcome::Skipped(LoadFailure::OpenFailed)));
}

/// Runs `body` with a menu to add to, as a plugin gets one each frame.
fn with_menu<R>(body: impl FnOnce(&mut egui::Ui) -> R) -> R {
    let ctx = egui::Context::default();
    let mut body = Some(body);
    let mut result = None;
    let _ = ctx.run(egui::RawInput::default(), |ctx| {
        egui::CentralPanel::default().show(ctx, |ui| {
            if let Some(body) = body.take() {
                result = Some(body(ui));
            }
        });
    });
    result.expect("the panel was not drawn")
}

#[test]
fn scan_loads_libraries_in_listing_order() {
    let journal = Journal::default();
    let mut manager = PluginManager::new();
    let (opened, retained) = scan(
        &mut manager,
        Some(vec!["notes.txt", "good.so", "second.so", "README", "third.so"]),
        &journal,
    );
    assert_eq!(opened, vec!["good.so", "second.so", "third.so"]);
    assert_eq!(retained, opened);
    assert_eq!(manager.len(), 3);
    assert_eq!(manager.state(), ManagerState::Ready);
    manager.on_load(&egui::Context::default());
    assert_eq!(
        *journal.borrow(),
        vec!["good.so:on_load", "second.so:on_load", "third.so:on_load"]
    );
}

#[test]
fn scan_takes_extensions_in_any_case() {
    let journal = Journal::default();
    let mut manager = PluginManager::new();
    let (opened, _) = scan(&mut manager, Some(vec!["UPPER.SO", "lower.txt"]), &journal);
    assert_eq!(opened, vec!["UPPER.SO"]);
    assert_eq!(manager.len(), 1);
}

#[test]
fn same_name_twice_in_one_listing_loads_once() {
    let journal = Journal::default();
    let mut manager = PluginManager::new();
    let (opened, _) = scan(&mut manager, Some(vec!["good.so", "good.so"]), &journal);
    assert_eq!(opened, vec!["good.so"]);
    assert_eq!(manager.len(), 1);
}

#[test]
fn second_scan_does_not_reload() {
    let journal = Journal::default();
    let mut manager = PluginManager::new();
    scan(&mut manager, Some(vec!["good.so", "only_create.so"]), &journal);
    assert_eq!(manager.len(), 1);
    let (opened, _) = scan(
        &mut manager,
        Some(vec!["good.so", "only_create.so", "second.so"]),
        &journal,
    );
    assert_eq!(opened, vec!["second.so"]);
    assert_eq!(manager.len(), 2);
    assert!(manager.has_seen(&"good.so".to_string()));
    assert!(manager.has_seen(&"only_create.so".to_string()));
    assert!(!manager.has_seen(&"third.so".to_string()));
}

#[test]
fn library_without_destroy_is_skipped_and_retained() {
    let journal = Journal::default();
    let mut manager = PluginManager::new();
    let (opened, retained) = scan(&mut manager, Some(vec!["only_create.so"]), &journal);
    assert_eq!(opened, vec!["only_create.so"]);
    assert_eq!(retained, vec!["only_create.so"]);
    assert_eq!(manager.len(), 0);
    assert_eq!(manager.state(), ManagerState::Ready);
}

#[test]
fn library_without_create_is_skipped_and_retained() {
    let journal = Journal::default();
    let mut manager = PluginManager::new();
    let (opened, retained) = scan(&mut manager, Some(vec!["only_destroy.so", "empty.so"]), &journal);
    assert_eq!(opened, vec!["only_destroy.so", "empty.so"]);
    assert_eq!(retained, vec!["only_destroy.so", "empty.so"]);
    assert_eq!(manager.len(), 0);
}

#[test]
fn every_opened_library_is_retained_once() {
    let journal = Journal::default();
    let mut manager = PluginManager::new();
    let (opened, retained) = scan(
        &mut manager,
        Some(vec!["good.so", "only_create.so", "broken.so", "only_destroy.so", "second.so"]),
        &journal,
    );
    assert_eq!(opened.len(), 5);
    assert_eq!(retained, vec!["good.so", "only_create.so", "only_destroy.so", "second.so"]);
}

#[test]
fn only_libraries_of_the_platform_are_tried() {
    let listing = || Some(vec!["good.so", "win.dll", "mac.dylib", "notes.txt", "WIN.DLL"]);
    let journal = Journal::default();

    let mut manager = PluginManager::new();
    let (opened, _) = scan_on(Platform::Unix, &mut manager, listing(), &journal);
    assert_eq!(opened, vec!["good.so"]);
    assert_eq!(manager.len(), 1);
    assert!(!manager.has_seen(&"win.dll".to_string()));

    let mut manager = PluginManager::new();
    let (opened, _) = scan_on(Platform::Windows, &mut manager, listing(), &journal);
    assert_eq!(opened, vec!["win.dll", "WIN.DLL"]);
    assert_eq!(manager.len(), 1);

    let mut manager = PluginManager::new();
    let (opened, _) = scan_on(Platform::MacOs, &mut manager, listing(), &journal);
    assert_eq!(opened, vec!["mac.dylib"]);
    assert_eq!(manager.len(), 1);
}

#[test]
fn bad_library_does_not_stop_the_scan() {
    let journal = Journal::default();
    let mut manager = PluginManager::new();
    let (opened, _) = scan(
        &mut manager,
        Some(vec!["good.so", "only_create.so", "broken.so", "only_destroy.so", "second.so"]),
        &journal,
    );
    assert_eq!(
        opened,
        vec!["good.so", "only_create.so", "broken.so", "only_destroy.so", "second.so"]
    );
    assert_eq!(manager.len(), 2);
    manager.on_unload();
    assert_eq!(*journal.borrow(), vec!["good.so:on_unload", "second.so:on_unload"]);
}

#[test]
fn attempt_reports_why_a_file_was_skipped() {
    let journal = Journal::default();
    let open =
        |file: &String| exports_of(file).map(|exports| FakeLibrary { file: file.clone(), exports });
    let resolve = |library: &FakeLibrary, export: Export| {
        library.exports.contains(&export.symbol()).then_some(export)
    };
    let made = RefCell::new(0);
    let construct = |library: &FakeLibrary, _create: Export, _destroy: Export| {
        *made.borrow_mut() += 1;
        Scripted {
            id: library.file.clone(),
            journal: journal.clone(),
            menu_answer: None,
            selection_answer: None,
        }
    };
    let retain = |_library: FakeLibrary| {};
    let failure_of = |file: &str| match load_plugin_from_file(
        &file.to_string(),
        &open,
        &resolve,
        &construct,
        &retain,
    ) {
        LoadOutcome::Loaded(_) => None,
        LoadOutcome::Skipped(failure) => Some(failure),
    };
    assert_eq!(failure_of("nowhere.so"), Some(LoadFailure::OpenFailed));
    assert_eq!(failure_of("only_destroy.so"), Some(LoadFailure::MissingCreate));
    assert_eq!(failure_of("empty.so"), Some(LoadFailure::MissingCreate));
    assert_eq!(failure_of("only_create.so"), Some(LoadFailure::MissingDestroy));
    assert_eq!(*made.borrow(), 0);
    assert_eq!(failure_of("good.so"), None);
    assert_eq!(*made.borrow(), 1);
}

#[test]
fn exports_have_their_fixed_names() {
    assert_eq!(Export::Create.symbol(), "_create_plugin");
    assert_eq!(Export::Destroy.symbol(), "_destroy_plugin");
}

#[test]
fn every_round_calls_all_plugins_in_load_order() {
    let journal = Journal::default();
    let mut manager = PluginManager::new();
    scan(&mut manager, Some(vec!["third.so", "good.so", "second.so"]), &journal);
    let ctx = egui::Context::default();
    let ed = EditorContext { content: "text", selection: None };
    manager.on_load(&ctx);
    manager.ui(&ctx, &ed);
    with_menu(|ui| manager.menu_ui(ui, &ed));
    manager.ui(&ctx, &ed);
    manager.on_unload();
    let order = ["third.so", "good.so", "second.so"];
    let mut expected = Vec::new();
    for call in ["on_load", "ui:text", "menu_ui:text", "ui:text", "on_unload"] {
        for id in order {
            expected.push(format!("{}:{}", id, call));
        }
    }
    assert_eq!(*journal.borrow(), expected);
    assert_eq!(manager.state(), ManagerState::ShuttingDown);
    assert_eq!(manager.len(), 3);
}

/// A registry of plugins that answer `answers` in the menu, in order.
fn manager_answering(answers: &[Option<&'static str>], journal: &Journal) -> PluginManager<Scripted> {
    let mut manager = PluginManager::new();
    let count = RefCell::new(0usize);
    let open = |file: &String| Some(file.clone());
    let resolve = |_library: &String, export: Export| Some(export);
    let construct = |library: &String, _create: Export, _destroy: Export| {
        let n = *count.borrow();
        *count.borrow_mut() += 1;
        Scripted {
            id: library.clone(),
            journal: journal.clone(),
            menu_answer: answers[n],
            selection_answer: answers[n],
        }
    };
    let retain = |_library: String| {};
    let listing = (0..answers.len()).map(|i| format!("p{}.so", i)).collect();
    manager.load_plugins(Some(listing), Platform::Unix, &open, &resolve, &construct, &retain);
    manager
}

#[test]
fn last_plugin_that_asks_wins() {
    let journal = Journal::default();
    let mut manager =
        manager_answering(&[None, Some("first"), None, Some("second"), None], &journal);
    let ed = EditorContext { content: "", selection: None };
    let action = with_menu(|ui| manager.menu_ui(ui, &ed));
    assert_eq!(action, PluginAction::ReplaceAll("second".to_string()));
    let action = manager.ui(&egui::Context::default(), &ed);
    assert_eq!(action, PluginAction::ReplaceSelection("second".to_string()));
}

#[test]
fn plugins_after_a_request_are_still_called() {
    let journal = Journal::default();
    let mut manager = manager_answering(&[Some("early"), None, None], &journal);
    let ed = EditorContext { content: "t", selection: None };
    let ctx = egui::Context::default();
    assert_eq!(manager.ui(&ctx, &ed), PluginAction::ReplaceSelection("early".to_string()));
    assert_eq!(*journal.borrow(), vec!["p0.so:ui:t", "p1.so:ui:t", "p2.so:ui:t"]);
    journal.borrow_mut().clear();
    assert_eq!(manager.ui(&ctx, &ed), PluginAction::ReplaceSelection("early".to_string()));
    assert_eq!(*journal.borrow(), vec!["p0.so:ui:t", "p1.so:ui:t", "p2.so:ui:t"]);
}

#[test]
fn round_without_requests_gives_nothing() {
    let journal = Journal::default();
    let mut manager = manager_answering(&[None, None], &journal);
    let ed = EditorContext { content: "abc", selection: Some((0, 1)) };
    assert_eq!(manager.ui(&egui::Context::default(), &ed), PluginAction::Nothing);
    assert_eq!(with_menu(|ui| manager.menu_ui(ui, &ed)), PluginAction::Nothing);
    let mut nobody: PluginManager<Scripted> = PluginManager::new();
    assert_eq!(nobody.ui(&egui::Context::default(), &ed), PluginAction::Nothing);
}

#[test]
fn every_plugin_sees_the_text_that_the_host_handed_in() {
    let journal = Journal::default();
    let mut manager = manager_answering(&[Some("changed"), None, Some("again")], &journal);
    let ed = EditorContext { content: "untouched", selection: None };
    with_menu(|ui| manager.menu_ui(ui, &ed));
    assert_eq!(
        *journal.borrow(),
        vec!["p0.so:menu_ui:untouched", "p1.so:menu_ui:untouched", "p2.so:menu_ui:untouched"]
    );
    assert_eq!(ed.content, "untouched");
}

#[test]
fn release_hands_every_handle_over_once() {
    let journal = Journal::default();
    let mut manager = PluginManager::new();
    scan(&mut manager, Some(vec!["good.so", "only_create.so", "second.so"]), &journal);
    manager.on_unload();
    let destroyed = RefCell::new(Vec::new());
    let destroy = |plugin: Scripted| destroyed.borrow_mut().push(plugin.id);
    manager.release(&destroy);
    assert_eq!(*destroyed.borrow(), vec!["good.so", "second.so"]);
    assert_eq!(manager.len(), 0);
    assert_eq!(manager.state(), ManagerState::Empty);
    manager.release(&destroy);
    assert_eq!(destroyed.borrow().len(), 2);
    let (opened, _) = scan(&mut manager, Some(vec!["good.so"]), &journal);
    assert!(opened.is_empty());
    assert_eq!(manager.state(), ManagerState::Ready);
}

/// A handle that counts how often it is made and how often it is freed.
struct Counted {
    freed: Rc<RefCell<Vec<usize>>>,
    pointer: usize,
}

impl SimplePlugin for Counted {
    fn id(&self) -> &str {
        "counted"
    }

    fn name(&self) -> &str {
        "Counted"
    }
}

impl Drop for Counted {
    fn drop(&mut self) {
        self.freed.borrow_mut().push(self.pointer);
    }
}

#[test]
fn every_loaded_plugin_is_freed_once_with_its_own_pointer() {
    let freed = Rc::new(RefCell::new(Vec::new()));
    let made = RefCell::new(Vec::new());
    {
        let mut manager: PluginManager<Simple<Counted>> = PluginManager::new();
        let open = |file: &String| exports_of(file);
        let resolve = |exports: &Vec<&'static str>, export: Export| {
            exports.contains(&export.symbol()).then_some(export)
        };
        let construct = |_library: &Vec<&'static str>, _create: Export, _destroy: Export| {
            let pointer = 0x1000 + made.borrow().len();
            made.borrow_mut().push(pointer);
            Simple(Counted { freed: freed.clone(), pointer })
        };
        let retain = |_library: Vec<&'static str>| {};
        let listing: Vec<String> =
            ["good.so", "only_create.so", "second.so", "good.so"].iter().map(|s| s.to_string()).collect();
        manager.load_plugins(Some(listing.clone()), Platform::Unix, &open, &resolve, &construct, &retain);
        manager.load_plugins(Some(listing), Platform::Unix, &open, &resolve, &construct, &retain);
        assert_eq!(*made.borrow(), vec![0x1000, 0x1001]);
        let ctx = egui::Context::default();
        let ed = EditorContext { content: "", selection: None };
        manager.on_load(&ctx);
        manager.ui(&ctx, &ed);
        manager.on_unload();
        assert!(freed.borrow().is_empty());
        manager.release(&|plugin: Simple<Counted>| drop(plugin));
        assert_eq!(*freed.borrow(), vec![0x1000, 0x1001]);
    }
    assert_eq!(*freed.borrow(), *made.borrow());
}

#[test]
fn dropping_the_registry_frees_what_it_still_holds() {
    let freed = Rc::new(RefCell::new(Vec::new()));
    {
        let mut manager: PluginManager<Simple<Counted>> = PluginManager::new();
        let open = |file: &String| Some(file.clone());
        let resolve = |_library: &String, export: Export| Some(export);
        let construct = |_library: &String, _create: Export, _destroy: Export| {
            Simple(Counted { freed: freed.clone(), pointer: 7 })
        };
        let retain = |_library: String| {};
        manager.load_plugins(
            Some(vec!["a.so".to_string()]),
            Platform::Unix,
            &open,
            &resolve,
            &construct,
            &retain,
        );
        assert_eq!(manager.len(), 1);
    }
    assert_eq!(*freed.borrow(), vec![7]);
}

/// A plugin that puts the document in upper case when its menu entry
/// was clicked.
struct Upper {
    clicked: bool,
}

impl SimplePlugin for Upper {
    fn id(&self) -> &str {
        "upper"
    }

    fn name(&self) -> &str {
        "Uppercase"
    }

    fn menu_ui(&mut self, _ui: &mut egui::Ui, ed: &EditorContext) -> PluginAction {
        if self.clicked {
            self.clicked = false;
            PluginAction::ReplaceAll(ed.content.to_uppercase())
        } else {
            PluginAction::Nothing
        }
    }
}

#[test]
fn uppercase_plugin_end_to_end() {
    let mut manager: PluginManager<Simple<Upper>> = PluginManager::new();
    let open = |file: &String| Some(file.clone());
    let resolve = |_library: &String, export: Export| Some(export);
    let construct =
        |_library: &String, _create: Export, _destroy: Export| Simple(Upper { clicked: true });
    let retain = |_library: String| {};
    manager.load_plugins(
        Some(vec!["upper.so".to_string()]),
        Platform::Unix,
        &open,
        &resolve,
        &construct,
        &retain,
    );
    assert_eq!(manager.len(), 1);
    manager.on_load(&egui::Context::default());

    let mut ids = TabIdSource::new();
    let mut tabs = vec![EditorTab::new(&mut ids, None, "abc".to_string(), LineEnding::Lf)];
    let active = Some(tabs[0].id);

    let action = {
        let ed = get_ed_ctx(&tabs, active);
        assert_eq!(ed.content, "abc");
        assert_eq!(ed.selection, None);
        with_menu(|ui| manager.menu_ui(ui, &ed))
    };
    assert_eq!(action, PluginAction::ReplaceAll("ABC".to_string()));
    handle_plugin_action(&mut tabs[0], action, None);
    assert_eq!(tabs[0].content, "ABC");
    assert!(tabs[0].is_dirty);
    assert_eq!(tabs[0].undo_stack, vec!["abc".to_string()]);

    // Without a click the next frame asks for nothing.
    let ed = get_ed_ctx(&tabs, active);
    assert_eq!(with_menu(|ui| manager.menu_ui(ui, &ed)), PluginAction::Nothing);
}

#[test]
fn library_with_create_only_end_to_end() {
    let journal = Journal::default();
    let mut manager = PluginManager::new();
    scan(&mut manager, Some(vec!["only_create.so"]), &journal);
    assert_eq!(manager.len(), 0);
    assert_eq!(manager.state(), ManagerState::Ready);
    let ed = EditorContext { content: "abc", selection: None };
    manager.on_load(&egui::Context::default());
    assert_eq!(manager.ui(&egui::Context::default(), &ed), PluginAction::Nothing);
    manager.on_unload();
    assert!(journal.borrow().is_empty());
}
