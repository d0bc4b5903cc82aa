//! The registry of loaded plugins: it scans for plugin libraries, loads
//! each file once, and hands every lifecycle and per-frame call to all
//! plugins in the order in which they were loaded.

use crate::discovery::{admitted, is_plugin_library, seen_after, seen_before, Platform};
use crate::loader::{attempt, callable, load_plugin_from_file, Export, LoadOutcome};
use crate::sdk::{last_wins, ActionView, EditorContext, NotosPlugin, PluginAction, PluginCall};
use crate::text::texts;
use vstd::prelude::*;

verus! {

/// Where a registry stands in its life.
#[derive(Clone, Copy, Debug, PartialEq, Eq, Structural)]
pub enum ManagerState {
    /// Nothing was scanned yet, or all plugins were let go.
    Empty,
    /// A scan is under way.
    Scanning,
    /// A scan is over; there may be no plugin at all.
    Ready,
    /// The plugins were told that the host shuts down.
    ShuttingDown,
}

/// One round of calls: every plugin takes the same call once, does and
/// answers what it declares of itself, and keeps its place; `responses`
/// holds the answers in the plugins' order.
pub open spec fn round<P: NotosPlugin>(
    before: Seq<P>,
    call: PluginCall,
    after: Seq<P>,
    responses: Seq<ActionView>,
) -> bool {
    &&& after.len() == before.len()
    &&& responses.len() == before.len()
    &&& forall|i: int|
        0 <= i < before.len() ==> P::behaves(before[i], call, after[i], #[trigger] responses[i])
}

/// The plugins that a run of attempts yields, in the order of the
/// attempts. An attempt that was passed over adds none.
pub open spec fn loaded<P>(outcomes: Seq<LoadOutcome<P>>) -> Seq<P>
    decreases outcomes.len(),
{
    if outcomes.len() == 0 {
        Seq::empty()
    } else {
        match outcomes.last() {
            LoadOutcome::Loaded(plugin) => loaded(outcomes.drop_last()).push(plugin),
            LoadOutcome::Skipped(_) => loaded(outcomes.drop_last()),
        }
    }
}

/// Whether `outcomes` are possible ends of one attempt on each of
/// `files`, in order.
pub open spec fn attempts<L, S, P, O, R, C, K>(
    files: Seq<String>,
    open: O,
    resolve: R,
    construct: C,
    retain: K,
    outcomes: Seq<LoadOutcome<P>>,
) -> bool where
    O: Fn(&String) -> Option<L>,
    R: Fn(&L, Export) -> Option<S>,
    C: Fn(&L, S, S) -> P,
    K: Fn(L),
 {
    &&& outcomes.len() == files.len()
    &&& forall|i: int|
        0 <= i < files.len() ==> attempt(
            &files[i],
            open,
            resolve,
            construct,
            retain,
            #[trigger] outcomes[i],
        )
}

/// The entries of a directory listing; a directory that is missing or
/// cannot be read has none.
pub open spec fn entries(listing: Option<Vec<String>>) -> Seq<String> {
    match listing {
        Some(names) => names@,
        None => Seq::empty(),
    }
}

/// The registry of loaded plugins.
///
/// It owns every plugin handle, in load order, and remembers the name of
/// every file that it tried to load, so that no file is tried twice.
pub struct PluginManager<P: NotosPlugin> {
    plugins: Vec<P>,
    seen: Vec<String>,
    state: ManagerState,
}

impl<P: NotosPlugin> PluginManager<P> {
    /// The plugins held, in load order.
    pub closed spec fn plugins(&self) -> Seq<P> {
        self.plugins@
    }

    /// The names of the files tried so far, in the order of the attempts.
    pub closed spec fn seen(&self) -> Seq<Seq<char>> {
        texts(self.seen@)
    }

    /// Where the registry stands in its life.
    pub closed spec fn phase(&self) -> ManagerState {
        self.state
    }

    /// A registry that holds nothing and has seen nothing.
    pub fn new() -> (manager: Self)
        ensures
            manager.plugins() == Seq::<P>::empty(),
            manager.seen() == Seq::<Seq<char>>::empty(),
            manager.phase() == ManagerState::Empty,
    {
        let manager = PluginManager {
            plugins: Vec::new(),
            seen: Vec::new(),
            state: ManagerState::Empty,
        };
        proof {
            assert(manager.seen() =~= Seq::<Seq<char>>::empty());
        }
        manager
    }

    /// Where the registry stands in its life.
    pub fn state(&self) -> (state: ManagerState)
        ensures
            state == self.phase(),
    {
        self.state
    }

    /// How many plugins the registry holds.
    pub fn len(&self) -> (n: usize)
        ensures
            n == self.plugins().len(),
    {
        self.plugins.len()
    }

    /// Whether a file of this name was tried before.
    pub fn has_seen(&self, name: &String) -> (r: bool)
        ensures
            r == seen_before(self.seen(), name@),
    {
        let mut i: usize = 0;
        while i < self.seen.len()
            invariant
                i <= self.seen.len(),
                forall|k: int| 0 <= k < i ==> self.seen()[k] != name@,
            decreases self.seen.len() - i,
        {
            if self.seen[i] == *name {
                proof {
                    assert(self.seen()[i as int] == name@);
                }
                return true;
            }
            i += 1;
        }
        false
    }

    /// Scans a listing of the plugin directory and loads what it finds.
    ///
    /// `listing` holds the names of the directory's own entries, or
    /// nothing where the directory is missing or cannot be read. Every
    /// entry that is named like a plugin library of `platform` and whose
    /// name was never seen is tried once, in listing order, as
    /// `load_plugin_from_file` says; the plugins that come of it join
    /// the registry in that order. No other entry is tried. A file that
    /// yields no plugin does not stop the scan.
    pub fn load_plugins<L, S, O, R, C, K>(
        &mut self,
        listing: Option<Vec<String>>,
        platform: Platform,
        open: &O,
        resolve: &R,
        construct: &C,
        retain: &K,
    ) where
        O: Fn(&String) -> Option<L>,
        R: Fn(&L, Export) -> Option<S>,
        C: Fn(&L, S, S) -> P,
        K: Fn(L),

        requires
            callable::<L, S, P, O, R, C, K>(*open, *resolve, *construct, *retain),
        ensures
            final(self).phase() == ManagerState::Ready,
            final(self).seen() == seen_after(old(self).seen(), entries(listing), platform),
            exists|outcomes: Seq<LoadOutcome<P>>|
                {
                    &&& #[trigger] attempts(
                        admitted(old(self).seen(), entries(listing), platform),
                        *open,
                        *resolve,
                        *construct,
                        *retain,
                        outcomes,
                    )
                    &&& final(self).plugins() == old(self).plugins() + loaded(outcomes)
                },
            entries(listing).len() == 0 ==> final(self).plugins() == old(self).plugins()
                && final(self).seen() == old(self).seen(),
    {
        self.state = ManagerState::Scanning;
        let ghost files = entries(listing);
        let ghost mut tried: Seq<String> = Seq::empty();
        let ghost mut outcomes: Seq<LoadOutcome<P>> = Seq::empty();
        proof {
            assert(files.skip(0) =~= files);
            assert(self.plugins@ =~= old(self).plugins@ + loaded(outcomes));
        }
        match listing {
            Some(names) => {
                let mut i: usize = 0;
                while i < names.len()
                    invariant
                        i <= names.len(),
                        names@ == files,
                        callable::<L, S, P, O, R, C, K>(*open, *resolve, *construct, *retain),
                        admitted(old(self).seen(), files, platform) == tried + admitted(
                            self.seen(),
                            files.skip(i as int),
                            platform,
                        ),
                        seen_after(old(self).seen(), files, platform) == seen_after(
                            self.seen(),
                            files.skip(i as int),
                            platform,
                        ),
                        attempts(tried, *open, *resolve, *construct, *retain, outcomes),
                        self.plugins@ == old(self).plugins@ + loaded(outcomes),
                    decreases names.len() - i,
                {
                    let name = &names[i];
                    proof {
                        assert(files.skip(i as int)[0] == files[i as int]);
                        assert(files.skip(i as int).drop_first() =~= files.skip(i + 1));
                    }
                    if is_plugin_library(name.as_str(), platform) && !self.has_seen(name) {
                        let ghost seen_then = self.seen();
                        self.seen.push(name.clone());
                        proof {
                            assert(self.seen() =~= seen_then.push(name@));
                            assert(tried.push(*name) + admitted(self.seen(), files.skip(i + 1), platform)
                                =~= tried + (seq![*name] + admitted(
                                self.seen(),
                                files.skip(i + 1),
                                platform,
                            )));
                        }
                        let outcome = load_plugin_from_file(name, open, resolve, construct, retain);
                        proof {
                            let ghost before = outcomes;
                            tried = tried.push(*name);
                            outcomes = outcomes.push(outcome);
                            assert(outcomes.drop_last() =~= before);
                        }
                        match outcome {
                            LoadOutcome::Loaded(plugin) => {
                                self.plugins.push(plugin);
                                proof {
                                    assert(self.plugins@ =~= old(self).plugins@ + loaded(outcomes));
                                }
                            },
                            LoadOutcome::Skipped(_) => {},
                        }
                    }
                    i += 1;
                }
                proof {
                    assert(files.skip(i as int) =~= Seq::<String>::empty());
                    assert(tried + Seq::<String>::empty() =~= tried);
                }
            },
            None => {},
        }
        self.state = ManagerState::Ready;
        proof {
            assert(attempts(
                admitted(old(self).seen(), files, platform),
                *open,
                *resolve,
                *construct,
                *retain,
                outcomes,
            ));
        }
    }

    /// Tells every plugin, in load order, that it was loaded.
    pub fn on_load(&mut self, ctx: &egui::Context)
        ensures
            final(self).phase() == old(self).phase(),
            final(self).seen() == old(self).seen(),
            exists|responses: Seq<ActionView>| #[trigger]
                round(old(self).plugins(), PluginCall::OnLoad, final(self).plugins(), responses),
    {
        let n = self.plugins.len();
        let mut i: usize = 0;
        while i < n
            invariant
                i <= n,
                n == self.plugins.len(),
                self.plugins.len() == old(self).plugins.len(),
                self.seen == old(self).seen,
                self.state == old(self).state,
                forall|k: int|
                    0 <= k < i ==> P::behaves(
                        #[trigger] old(self).plugins@[k],
                        PluginCall::OnLoad,
                        self.plugins@[k],
                        ActionView::Nothing,
                    ),
                forall|k: int| i <= k < n ==> self.plugins@[k] == old(self).plugins@[k],
            decreases n - i,
        {
            self.plugins[i].on_load(ctx);
            i += 1;
        }
        proof {
            let responses = Seq::new(n as nat, |k: int| ActionView::Nothing);
            assert(round(old(self).plugins(), PluginCall::OnLoad, self.plugins(), responses));
        }
    }

    /// Tells every plugin, in load order, that the host shuts down.
    pub fn on_unload(&mut self)
        ensures
            final(self).phase() == ManagerState::ShuttingDown,
            final(self).seen() == old(self).seen(),
            exists|responses: Seq<ActionView>| #[trigger]
                round(old(self).plugins(), PluginCall::OnUnload, final(self).plugins(), responses),
    {
        let n = self.plugins.len();
        let mut i: usize = 0;
        while i < n
            invariant
                i <= n,
                n == self.plugins.len(),
                self.plugins.len() == old(self).plugins.len(),
                self.seen == old(self).seen,
                forall|k: int|
                    0 <= k < i ==> P::behaves(
                        #[trigger] old(self).plugins@[k],
                        PluginCall::OnUnload,
                        self.plugins@[k],
                        ActionView::Nothing,
                    ),
                forall|k: int| i <= k < n ==> self.plugins@[k] == old(self).plugins@[k],
            decreases n - i,
        {
            self.plugins[i].on_unload();
            i += 1;
        }
        self.state = ManagerState::ShuttingDown;
        proof {
            let responses = Seq::new(n as nat, |k: int| ActionView::Nothing);
            assert(round(old(self).plugins(), PluginCall::OnUnload, self.plugins(), responses));
        }
    }

    /// Lets every plugin, in load order, draw for this frame, and
    /// returns what the last plugin that asked for something asked for.
    ///
    /// Every plugin is shown the same `ed`, whatever the plugins before
    /// it answered.
    pub fn ui(&mut self, ctx: &egui::Context, ed: &EditorContext) -> (result: PluginAction)
        ensures
            final(self).phase() == old(self).phase(),
            final(self).seen() == old(self).seen(),
            exists|responses: Seq<ActionView>|
                {
                    &&& #[trigger] round(
                        old(self).plugins(),
                        PluginCall::Ui(ed@),
                        final(self).plugins(),
                        responses,
                    )
                    &&& result@ == last_wins(responses)
                },
    {
        let mut result = PluginAction::Nothing;
        let ghost mut responses: Seq<ActionView> = Seq::empty();
        let n = self.plugins.len();
        let mut i: usize = 0;
        while i < n
            invariant
                i <= n,
                n == self.plugins.len(),
                self.plugins.len() == old(self).plugins.len(),
                self.seen == old(self).seen,
                self.state == old(self).state,
                responses.len() == i,
                forall|k: int|
                    0 <= k < i ==> P::behaves(
                        old(self).plugins@[k],
                        PluginCall::Ui(ed@),
                        self.plugins@[k],
                        #[trigger] responses[k],
                    ),
                forall|k: int| i <= k < n ==> self.plugins@[k] == old(self).plugins@[k],
                result@ == last_wins(responses),
            decreases n - i,
        {
            let action = self.plugins[i].ui(ctx, ed);
            proof {
                let before = responses;
                responses = responses.push(action@);
                assert(responses.drop_last() =~= before);
            }
            result = result.overridden_by(action);
            i += 1;
        }
        proof {
            assert(round(old(self).plugins(), PluginCall::Ui(ed@), self.plugins(), responses));
        }
        result
    }

    /// Lets every plugin, in load order, add to the main menu, and
    /// returns what the last plugin that asked for something asked for.
    ///
    /// Every plugin is shown the same `ed`, whatever the plugins before
    /// it answered.
    pub fn menu_ui(&mut self, ui: &mut egui::Ui, ed: &EditorContext) -> (result: PluginAction)
        ensures
            final(self).phase() == old(self).phase(),
            final(self).seen() == old(self).seen(),
            exists|responses: Seq<ActionView>|
                {
                    &&& #[trigger] round(
                        old(self).plugins(),
                        PluginCall::MenuUi(ed@),
                        final(self).plugins(),
                        responses,
                    )
                    &&& result@ == last_wins(responses)
                },
    {
        let mut result = PluginAction::Nothing;
        let ghost mut responses: Seq<ActionView> = Seq::empty();
        let n = self.plugins.len();
        let mut i: usize = 0;
        while i < n
            invariant
                i <= n,
                n == self.plugins.len(),
                self.plugins.len() == old(self).plugins.len(),
                self.seen == old(self).seen,
                self.state == old(self).state,
                responses.len() == i,
                forall|k: int|
                    0 <= k < i ==> P::behaves(
                        old(self).plugins@[k],
                        PluginCall::MenuUi(ed@),
                        self.plugins@[k],
                        #[trigger] responses[k],
                    ),
                forall|k: int| i <= k < n ==> self.plugins@[k] == old(self).plugins@[k],
                result@ == last_wins(responses),
            decreases n - i,
        {
            let action = self.plugins[i].menu_ui(ui, ed);
            proof {
                let before = responses;
                responses = responses.push(action@);
                assert(responses.drop_last() =~= before);
            }
            result = result.overridden_by(action);
            i += 1;
        }
        proof {
            assert(round(old(self).plugins(), PluginCall::MenuUi(ed@), self.plugins(), responses));
        }
        result
    }

    /// Lets every plugin go, in load order, and leaves the registry
    /// empty: each handle that the registry holds is handed to `destroy`,
    /// itself and no other, and the registry keeps none that could be
    /// handed over again. The names of the files tried stay known.
    pub fn release<D: Fn(P)>(&mut self, destroy: &D)
        requires
            forall|plugin: P| call_requires(*destroy, (plugin,)),
        ensures
            forall|i: int|
                0 <= i < old(self).plugins().len() ==> call_ensures(
                    *destroy,
                    (#[trigger] old(self).plugins()[i],),
                    (),
                ),
            final(self).plugins() == Seq::<P>::empty(),
            final(self).seen() == old(self).seen(),
            final(self).phase() == ManagerState::Empty,
    {
        let mut handles: Vec<P> = Vec::new();
        handles.append(&mut self.plugins);
        self.state = ManagerState::Empty;
        proof {
            assert(handles@ =~= old(self).plugins@);
        }
        let ghost all = handles@;
        for handle in it: handles
            invariant
                it.seq() == all,
                forall|plugin: P| call_requires(*destroy, (plugin,)),
                forall|i: int|
                    0 <= i < it.index() ==> call_ensures(*destroy, (#[trigger] all[i],), ()),
        {
            destroy(handle);
        }
    }
}

/// The plugins of two runs of attempts, one after the other, are those
/// of the first run followed by those of the second.
pub proof fn lemma_loaded_concat<P>(first: Seq<LoadOutcome<P>>, second: Seq<LoadOutcome<P>>)
    ensures
        loaded(first + second) == loaded(first) + loaded(second),
    decreases second.len(),
{
    if second.len() == 0 {
        assert(first + second =~= first);
        assert(loaded(first) + loaded(second) =~= loaded(first));
    } else {
        assert((first + second).drop_last() =~= first + second.drop_last());
        assert((first + second).last() == second.last());
        lemma_loaded_concat(first, second.drop_last());
        match second.last() {
            LoadOutcome::Loaded(plugin) => {
                assert(loaded(first + second) =~= loaded(first) + loaded(second));
            },
            LoadOutcome::Skipped(_) => {},
        }
    }
}

/// A file that is passed over adds no plugin and takes none away: the
/// files tried before and after it yield what they would yield without it.
pub proof fn lemma_skipped_file_changes_nothing<P>(
    before: Seq<LoadOutcome<P>>,
    failure: crate::loader::LoadFailure,
    after: Seq<LoadOutcome<P>>,
)
    ensures
        loaded(before.push(LoadOutcome::Skipped(failure)) + after) == loaded(before) + loaded(
            after,
        ),
{
    let skipped = before.push(LoadOutcome::Skipped(failure));
    assert(skipped.drop_last() =~= before);
    lemma_loaded_concat(skipped, after);
}

/// A run of attempts yields at most one plugin for each file tried.
pub proof fn lemma_loaded_at_most_one_each<P>(outcomes: Seq<LoadOutcome<P>>)
    ensures
        loaded(outcomes).len() <= outcomes.len(),
    decreases outcomes.len(),
{
    if outcomes.len() > 0 {
        lemma_loaded_at_most_one_each(outcomes.drop_last());
    }
}

/// Rounds keep the load order: the plugin that takes a call at some
/// place in one round takes the call of the next round at the same
/// place, whatever the two calls are, and no plugin joins or leaves.
pub proof fn lemma_rounds_keep_order<P: NotosPlugin>(
    start: Seq<P>,
    first: PluginCall,
    between: Seq<P>,
    first_responses: Seq<ActionView>,
    second: PluginCall,
    end: Seq<P>,
    second_responses: Seq<ActionView>,
)
    requires
        round(start, first, between, first_responses),
        round(between, second, end, second_responses),
    ensures
        end.len() == start.len(),
        forall|i: int|
            0 <= i < start.len() ==> P::behaves(
                start[i],
                first,
                #[trigger] between[i],
                first_responses[i],
            ) && P::behaves(between[i], second, end[i], second_responses[i]),
{
    assert forall|i: int| 0 <= i < start.len() implies P::behaves(
        start[i],
        first,
        #[trigger] between[i],
        first_responses[i],
    ) && P::behaves(between[i], second, end[i], second_responses[i]) by {
        assert(P::behaves(start[i], first, between[i], first_responses[i]));
        assert(P::behaves(between[i], second, end[i], second_responses[i]));
    }
}

/// In a round, every plugin takes the call that the host handed in:
/// what one plugin answers changes nothing of what the plugins after
/// it are shown of the document.
pub proof fn lemma_round_shows_one_context<P: NotosPlugin>(
    before: Seq<P>,
    call: PluginCall,
    after: Seq<P>,
    responses: Seq<ActionView>,
    i: int,
    j: int,
)
    requires
        round(before, call, after, responses),
        0 <= i < before.len(),
        0 <= j < before.len(),
    ensures
        P::behaves(before[i], call, after[i], responses[i]),
        P::behaves(before[j], call, after[j], responses[j]),
{
}

/// A round over one plugin answers what that plugin answers: where the
/// plugin, shown this call, can only ask for `request`, the round asks
/// for it.
pub proof fn lemma_round_of_one<P: NotosPlugin>(
    plugin: P,
    call: PluginCall,
    after: Seq<P>,
    responses: Seq<ActionView>,
    request: ActionView,
)
    requires
        round(seq![plugin], call, after, responses),
        forall|then: P, answer: ActionView| #[trigger]
            P::behaves(plugin, call, then, answer) ==> answer == request,
    ensures
        last_wins(responses) == request,
{
    assert(seq![plugin][0] == plugin);
    assert(P::behaves(plugin, call, after[0], responses[0]));
    assert(responses.drop_last().len() == 0);
    assert(last_wins(responses.drop_last()) is Nothing);
}

/// Where exactly two plugins of a round can ask for something, the
/// round asks for what the one at the later place asks for.
pub proof fn lemma_round_later_wins<P: NotosPlugin>(
    before: Seq<P>,
    call: PluginCall,
    after: Seq<P>,
    responses: Seq<ActionView>,
    i: int,
    j: int,
)
    requires
        round(before, call, after, responses),
        0 <= i < j < before.len(),
        !(responses[i] is Nothing),
        !(responses[j] is Nothing),
        forall|k: int| 0 <= k < before.len() && k != i && k != j ==> responses[k] is Nothing,
    ensures
        last_wins(responses) == responses[j],
        P::behaves(before[j], call, after[j], last_wins(responses)),
{
    crate::sdk::lemma_last_wins_of_two(responses, i, j);
}

/// A round over no plugins answers nothing.
pub proof fn lemma_round_of_none<P: NotosPlugin>(
    call: PluginCall,
    after: Seq<P>,
    responses: Seq<ActionView>,
)
    requires
        round(Seq::<P>::empty(), call, after, responses),
    ensures
        after.len() == 0,
        last_wins(responses) is Nothing,
{
}

} // verus!
