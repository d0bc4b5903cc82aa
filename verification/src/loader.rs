//! One attempt to bring a plugin library in: open it, find its two
//! exports, and only then let it make its plugin.

use vstd::prelude::*;

verus! {

/// The two functions that every plugin library must export.
#[derive(Clone, Copy, Debug, PartialEq, Eq, Structural)]
pub enum Export {
    /// Makes the plugin and hands its handle to the host.
    Create,
    /// Takes the handle back and frees the plugin.
    Destroy,
}

impl Export {
    /// The name under which a library exports this function.
    pub open spec fn symbol_name(self) -> Seq<char> {
        match self {
            Export::Create => "_create_plugin"@,
            Export::Destroy => "_destroy_plugin"@,
        }
    }

    /// The name under which a library exports this function.
    pub fn symbol(&self) -> (name: &'static str)
        ensures
            name@ == self.symbol_name(),
    {
        match self {
            Export::Create => "_create_plugin",
            Export::Destroy => "_destroy_plugin",
        }
    }
}

/// Why a file did not yield a plugin.
#[derive(Clone, Copy, Debug, PartialEq, Eq, Structural)]
pub enum LoadFailure {
    /// The file could not be opened as a library.
    OpenFailed,
    /// The library does not export the function that makes the plugin.
    MissingCreate,
    /// The library does not export the function that frees the plugin.
    MissingDestroy,
}

/// How an attempt to load a file ended.
pub enum LoadOutcome<P> {
    /// The library made this plugin.
    Loaded(P),
    /// The file was passed over.
    Skipped(LoadFailure),
}

/// Whether an attempt on `file` can open `library` and then find in it
/// what `create` and `destroy` say: an export, or that there is none.
pub open spec fn probes<L, S, O, R>(
    file: &String,
    open: O,
    resolve: R,
    library: L,
    create: Option<S>,
    destroy: Option<S>,
) -> bool where O: Fn(&String) -> Option<L>, R: Fn(&L, Export) -> Option<S> {
    &&& call_ensures(open, (file,), Some(library))
    &&& call_ensures(resolve, (&library, Export::Create), create)
    &&& call_ensures(resolve, (&library, Export::Destroy), destroy)
}

/// Whether `outcome` is a possible end of an attempt on `file`, given
/// the four things that the host can do with a library.
///
/// An attempt opens the file. It then looks for the export that makes
/// the plugin, and after that for the one that frees it. Only with both
/// at hand does it have the plugin made, once, from the exports of that
/// one library. A library that was opened is never closed again: it is
/// handed to `retain`, whether it yields a plugin or not.
pub open spec fn attempt<L, S, P, O, R, C, K>(
    file: &String,
    open: O,
    resolve: R,
    construct: C,
    retain: K,
    outcome: LoadOutcome<P>,
) -> bool where
    O: Fn(&String) -> Option<L>,
    R: Fn(&L, Export) -> Option<S>,
    C: Fn(&L, S, S) -> P,
    K: Fn(L),
 {
    match outcome {
        LoadOutcome::Skipped(LoadFailure::OpenFailed) => call_ensures(open, (file,), None::<L>),
        LoadOutcome::Skipped(LoadFailure::MissingCreate) => exists|library: L|
            {
                &&& #[trigger] call_ensures(open, (file,), Some(library))
                &&& call_ensures(resolve, (&library, Export::Create), None::<S>)
                &&& call_ensures(retain, (library,), ())
            },
        LoadOutcome::Skipped(LoadFailure::MissingDestroy) => exists|library: L, create: S|
            {
                &&& #[trigger] probes(file, open, resolve, library, Some(create), None::<S>)
                &&& call_ensures(retain, (library,), ())
            },
        LoadOutcome::Loaded(plugin) => exists|library: L, create: S, destroy: S|
            {
                &&& #[trigger] probes(file, open, resolve, library, Some(create), Some(destroy))
                &&& call_ensures(construct, (&library, create, destroy), plugin)
                &&& call_ensures(retain, (library,), ())
            },
    }
}

/// Whether the four things that the host can do with a library can be
/// asked of it on every input.
pub open spec fn callable<L, S, P, O, R, C, K>(open: O, resolve: R, construct: C, retain: K) -> bool where
    O: Fn(&String) -> Option<L>,
    R: Fn(&L, Export) -> Option<S>,
    C: Fn(&L, S, S) -> P,
    K: Fn(L),
 {
    &&& forall|file: &String| call_requires(open, (file,))
    &&& forall|library: &L, export: Export| call_requires(resolve, (library, export))
    &&& forall|library: &L, create: S, destroy: S|
        call_requires(construct, (library, create, destroy))
    &&& forall|library: L| call_requires(retain, (library,))
}

/// Tries to load the plugin library `file`.
///
/// `open` opens a library, `resolve` looks an export up in it,
/// `construct` has the library make its plugin and pairs the handle with
/// the export that frees it, and `retain` keeps the library in memory
/// for as long as the process runs.
pub fn load_plugin_from_file<L, S, P, O, R, C, K>(
    file: &String,
    open: &O,
    resolve: &R,
    construct: &C,
    retain: &K,
) -> (outcome: LoadOutcome<P>) where
    O: Fn(&String) -> Option<L>,
    R: Fn(&L, Export) -> Option<S>,
    C: Fn(&L, S, S) -> P,
    K: Fn(L),

    requires
        callable::<L, S, P, O, R, C, K>(*open, *resolve, *construct, *retain),
    ensures
        attempt(file, *open, *resolve, *construct, *retain, outcome),
{
    let library = match open(file) {
        Some(library) => library,
        None => {
            return LoadOutcome::Skipped(LoadFailure::OpenFailed);
        },
    };
    let ghost opened = library;
    let create = match resolve(&library, Export::Create) {
        Some(create) => create,
        None => {
            retain(library);
            proof {
                assert(call_ensures(*open, (file,), Some(opened)));
            }
            return LoadOutcome::Skipped(LoadFailure::MissingCreate);
        },
    };
    let ghost found_create = create;
    let destroy = match resolve(&library, Export::Destroy) {
        Some(destroy) => destroy,
        None => {
            retain(library);
            proof {
                assert(probes(file, *open, *resolve, opened, Some(found_create), None::<S>));
            }
            return LoadOutcome::Skipped(LoadFailure::MissingDestroy);
        },
    };
    let ghost found_destroy = destroy;
    let plugin = construct(&library, create, destroy);
    retain(library);
    proof {
        assert(probes(file, *open, *resolve, opened, Some(found_create), Some(found_destroy)));
    }
    LoadOutcome::Loaded(plugin)
}

/// A library that an attempt opened stays in memory: whatever came of
/// the attempt, the library was handed to `retain`.
pub proof fn lemma_opened_library_is_retained<L, S, P, O, R, C, K>(
    file: &String,
    open: O,
    resolve: R,
    construct: C,
    retain: K,
    outcome: LoadOutcome<P>,
) where O: Fn(&String) -> Option<L>, R: Fn(&L, Export) -> Option<S>, C: Fn(&L, S, S) -> P, K: Fn(L)
    requires
        attempt(file, open, resolve, construct, retain, outcome),
        outcome != LoadOutcome::<P>::Skipped(LoadFailure::OpenFailed),
    ensures
        exists|library: L| #[trigger]
            call_ensures(open, (file,), Some(library)) && call_ensures(retain, (library,), ()),
{
    match outcome {
        LoadOutcome::Skipped(LoadFailure::OpenFailed) => {},
        LoadOutcome::Skipped(LoadFailure::MissingCreate) => {
            let library = choose|library: L|
                {
                    &&& #[trigger] call_ensures(open, (file,), Some(library))
                    &&& call_ensures(resolve, (&library, Export::Create), None::<S>)
                    &&& call_ensures(retain, (library,), ())
                };
            assert(call_ensures(open, (file,), Some(library)) && call_ensures(
                retain,
                (library,),
                (),
            ));
        },
        LoadOutcome::Skipped(LoadFailure::MissingDestroy) => {
            let (library, create) = choose|library: L, create: S|
                {
                    &&& #[trigger] probes(file, open, resolve, library, Some(create), None::<S>)
                    &&& call_ensures(retain, (library,), ())
                };
            assert(call_ensures(open, (file,), Some(library)) && call_ensures(
                retain,
                (library,),
                (),
            ));
        },
        LoadOutcome::Loaded(plugin) => {
            let (library, create, destroy) = choose|library: L, create: S, destroy: S|
                {
                    &&& #[trigger] probes(file, open, resolve, library, Some(create), Some(destroy))
                    &&& call_ensures(construct, (&library, create, destroy), plugin)
                    &&& call_ensures(retain, (library,), ())
                };
            assert(call_ensures(open, (file,), Some(library)) && call_ensures(
                retain,
                (library,),
                (),
            ));
        },
    }
}

/// A library that lacks one of the two exports never yields a plugin:
/// every attempt on it ends with the file passed over.
pub proof fn lemma_missing_export_never_loads<L, S, P, O, R, C, K>(
    file: &String,
    open: O,
    resolve: R,
    construct: C,
    retain: K,
    outcome: LoadOutcome<P>,
    missing: Export,
) where O: Fn(&String) -> Option<L>, R: Fn(&L, Export) -> Option<S>, C: Fn(&L, S, S) -> P, K: Fn(L)
    requires
        attempt(file, open, resolve, construct, retain, outcome),
        forall|library: L, found: S|
            call_ensures(open, (file,), Some(library)) ==> !#[trigger] call_ensures(
                resolve,
                (&library, missing),
                Some(found),
            ),
    ensures
        outcome is Skipped,
{
    if let LoadOutcome::Loaded(plugin) = outcome {
        let (library, create, destroy) = choose|library: L, create: S, destroy: S|
            {
                &&& #[trigger] probes(file, open, resolve, library, Some(create), Some(destroy))
                &&& call_ensures(construct, (&library, create, destroy), plugin)
                &&& call_ensures(retain, (library,), ())
            };
        match missing {
            Export::Create => {
                assert(call_ensures(resolve, (&library, Export::Create), Some(create)));
            },
            Export::Destroy => {
                assert(call_ensures(resolve, (&library, Export::Destroy), Some(destroy)));
            },
        }
    }
}

} // verus!
