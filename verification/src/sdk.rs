//! The contract between the host and its plugins: what the host shows a
//! plugin, what a plugin may ask for, and the hooks that a plugin offers.

use vstd::prelude::*;

verus! {

/// The handle through which a plugin draws outside the menus.
#[verifier::external_type_specification]
#[verifier::external_body]
pub struct ExContext(egui::Context);

/// The handle through which a plugin adds entries to a menu.
#[verifier::external_type_specification]
#[verifier::external_body]
pub struct ExUi(egui::Ui);

/// What a plugin asks the host to do with the active document.
#[derive(Debug, PartialEq, Eq)]
pub enum PluginAction {
    /// Leave the document as it is.
    Nothing,
    /// Put this text in place of the whole document.
    ReplaceAll(String),
    /// Put this text in place of the current selection.
    ReplaceSelection(String),
}

/// A `PluginAction` with its text as a sequence of characters.
pub enum ActionView {
    Nothing,
    ReplaceAll(Seq<char>),
    ReplaceSelection(Seq<char>),
}

impl View for PluginAction {
    type V = ActionView;

    open spec fn view(&self) -> ActionView {
        match self {
            PluginAction::Nothing => ActionView::Nothing,
            PluginAction::ReplaceAll(text) => ActionView::ReplaceAll(text@),
            PluginAction::ReplaceSelection(text) => ActionView::ReplaceSelection(text@),
        }
    }
}

/// The one action that survives when `earlier` and then `later` were asked
/// for in the same round: `later`, unless it asks for nothing.
pub open spec fn later_wins(earlier: ActionView, later: ActionView) -> ActionView {
    if later is Nothing {
        earlier
    } else {
        later
    }
}

/// The one action that survives a round of responses given in calling
/// order: the last that asks for something, or `Nothing` where none does.
pub open spec fn last_wins(responses: Seq<ActionView>) -> ActionView
    decreases responses.len(),
{
    if responses.len() == 0 {
        ActionView::Nothing
    } else {
        later_wins(last_wins(responses.drop_last()), responses.last())
    }
}

impl PluginAction {
    /// Whether this action leaves the document untouched.
    pub fn is_nothing(&self) -> (r: bool)
        ensures
            r == (self@ is Nothing),
    {
        match self {
            PluginAction::Nothing => true,
            _ => false,
        }
    }

    /// Settles a conflict between this action and one asked for after it.
    pub fn overridden_by(self, later: PluginAction) -> (r: PluginAction)
        ensures
            r@ == later_wins(self@, later@),
    {
        if later.is_nothing() {
            self
        } else {
            later
        }
    }
}

/// The responses of a round, each by its view.
pub open spec fn views(responses: Seq<PluginAction>) -> Seq<ActionView> {
    responses.map_values(|a: PluginAction| a@)
}

/// Folds the responses of one round, given in calling order, into the
/// action that the host carries out.
pub fn fold_actions(responses: Vec<PluginAction>) -> (r: PluginAction)
    ensures
        r@ == last_wins(views(responses@)),
{
    let mut responses = responses;
    let ghost all = views(responses@);
    let mut result = PluginAction::Nothing;
    let mut found = false;
    while !found && responses.len() > 0
        invariant
            !found ==> result@ is Nothing,
            !found ==> last_wins(all) == last_wins(views(responses@)),
            found ==> result@ == last_wins(all),
        decreases responses.len() + if found { 0int } else { 1int },
    {
        let ghost before = responses@;
        let last = responses.pop();
        proof {
            assert(views(responses@) =~= views(before).drop_last());
            assert(views(before).last() == last->0@);
        }
        match last {
            Some(action) => {
                if !action.is_nothing() {
                    result = action;
                    found = true;
                }
            },
            None => {},
        }
    }
    result
}

/// Where no plugin asks for anything, nothing is carried out.
pub proof fn lemma_last_wins_of_silence(responses: Seq<ActionView>)
    requires
        forall|k: int| 0 <= k < responses.len() ==> responses[k] is Nothing,
    ensures
        last_wins(responses) is Nothing,
    decreases responses.len(),
{
    if responses.len() > 0 {
        lemma_last_wins_of_silence(responses.drop_last());
    }
}

/// A request after which every plugin asks for nothing is the one
/// carried out, whatever was asked for before it.
pub proof fn lemma_last_wins_is_last_request(responses: Seq<ActionView>, j: int)
    requires
        0 <= j < responses.len(),
        !(responses[j] is Nothing),
        forall|k: int| j < k < responses.len() ==> responses[k] is Nothing,
    ensures
        last_wins(responses) == responses[j],
    decreases responses.len(),
{
    if j < responses.len() - 1 {
        lemma_last_wins_is_last_request(responses.drop_last(), j);
    }
}

/// Where exactly two plugins of a round ask for something, the request
/// of the one that is called later is carried out.
pub proof fn lemma_last_wins_of_two(responses: Seq<ActionView>, i: int, j: int)
    requires
        0 <= i < j < responses.len(),
        !(responses[i] is Nothing),
        !(responses[j] is Nothing),
        forall|k: int| 0 <= k < responses.len() && k != i && k != j ==> responses[k] is Nothing,
    ensures
        last_wins(responses) == responses[j],
{
    lemma_last_wins_is_last_request(responses, j);
}

/// What the host shows a plugin of the active document: its text and, if
/// there is one, the selection as a pair of byte offsets into that text.
pub struct EditorContext<'a> {
    pub content: &'a str,
    pub selection: Option<(usize, usize)>,
}

/// An `EditorContext` with its text as a sequence of characters.
pub struct ContextView {
    pub content: Seq<char>,
    pub selection: Option<(usize, usize)>,
}

impl<'a> View for EditorContext<'a> {
    type V = ContextView;

    open spec fn view(&self) -> ContextView {
        ContextView { content: self.content@, selection: self.selection }
    }
}

/// One call of a plugin hook, with what the host hands it of the document.
pub enum PluginCall {
    OnLoad,
    Ui(ContextView),
    MenuUi(ContextView),
    OnUnload,
}

/// What every plugin offers the host.
///
/// Every hook has to be written; `SimplePlugin` is for a plugin that
/// wants to write only some. No hook can fail: the host has no way to
/// recover from a plugin that does not return.
pub trait NotosPlugin: Sized {
    /// What one call of a hook may do to this plugin and answer. A plugin
    /// that says nothing here leaves every outcome open.
    open spec fn behaves(before: Self, call: PluginCall, after: Self, answer: ActionView) -> bool {
        true
    }

    /// A name that no other loaded plugin has. It is not empty.
    fn id(&self) -> (id: &str)
        ensures
            id@.len() > 0,
    ;

    /// The name shown to the user.
    fn name(&self) -> &str;

    /// Called once, after the plugin was made.
    fn on_load(&mut self, ctx: &egui::Context)
        ensures
            Self::behaves(*old(self), PluginCall::OnLoad, *final(self), ActionView::Nothing),
    ;

    /// Called every frame; the plugin may draw windows and panels.
    fn ui(&mut self, ctx: &egui::Context, ed: &EditorContext) -> (action: PluginAction)
        ensures
            Self::behaves(*old(self), PluginCall::Ui(ed@), *final(self), action@),
    ;

    /// Called every frame while the main menu is built; the plugin may add
    /// entries to it.
    fn menu_ui(&mut self, ui: &mut egui::Ui, ed: &EditorContext) -> (action: PluginAction)
        ensures
            Self::behaves(*old(self), PluginCall::MenuUi(ed@), *final(self), action@),
    ;

    /// Called once, before the plugin is destroyed.
    fn on_unload(&mut self)
        ensures
            Self::behaves(*old(self), PluginCall::OnUnload, *final(self), ActionView::Nothing),
    ;
}

/// A plugin that writes its identity and only the hooks that it needs:
/// every other hook does nothing and asks for nothing. `Simple` makes a
/// `NotosPlugin` of it.
pub trait SimplePlugin: Sized {
    /// A name that no other loaded plugin has. It is not empty.
    fn id(&self) -> (id: &str)
        ensures
            id@.len() > 0,
    ;

    /// The name shown to the user.
    fn name(&self) -> &str;

    /// Called once, after the plugin was made.
    fn on_load(&mut self, ctx: &egui::Context) {
    }

    /// Called every frame; the plugin may draw windows and panels.
    fn ui(&mut self, ctx: &egui::Context, ed: &EditorContext) -> PluginAction {
        PluginAction::Nothing
    }

    /// Called every frame while the main menu is built; the plugin may add
    /// entries to it.
    fn menu_ui(&mut self, ui: &mut egui::Ui, ed: &EditorContext) -> PluginAction {
        PluginAction::Nothing
    }

    /// Called once, before the plugin is destroyed.
    fn on_unload(&mut self) {
    }
}

/// A `SimplePlugin` as the host takes it. Each hook is the plugin's own;
/// nothing is said of what the hooks do.
pub struct Simple<T: SimplePlugin>(pub T);

impl<T: SimplePlugin> NotosPlugin for Simple<T> {
    fn id(&self) -> (id: &str) {
        self.0.id()
    }

    fn name(&self) -> &str {
        self.0.name()
    }

    fn on_load(&mut self, ctx: &egui::Context) {
        self.0.on_load(ctx)
    }

    fn ui(&mut self, ctx: &egui::Context, ed: &EditorContext) -> (action: PluginAction) {
        self.0.ui(ctx, ed)
    }

    fn menu_ui(&mut self, ui: &mut egui::Ui, ed: &EditorContext) -> (action: PluginAction) {
        self.0.menu_ui(ui, ed)
    }

    fn on_unload(&mut self) {
        self.0.on_unload()
    }
}

} // verus!
