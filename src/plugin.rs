use crate::database::{Database, StoreView};
use vstd::prelude::*;

verus! {

/// The value stored under `key` in a list of bindings where a later binding
/// of a key overrides an earlier one.
pub open spec fn last_binding<V>(entries: Seq<(Seq<char>, V)>, key: Seq<char>) -> Option<V>
    decreases entries.len(),
{
    if entries.len() == 0 {
        None
    } else if entries.last().0 == key {
        Some(entries.last().1)
    } else {
        last_binding(entries.drop_last(), key)
    }
}

/// A table of named strings (templates by name, localized strings by key),
/// where registering a name again overrides the earlier entry.
pub struct Registry {
    entries: Vec<(String, String)>,
}

impl View for Registry {
    type V = Seq<(Seq<char>, Seq<char>)>;

    closed spec fn view(&self) -> Seq<(Seq<char>, Seq<char>)> {
        self.entries@.map_values(|e: (String, String)| (e.0@, e.1@))
    }
}

impl Registry {
    /// An empty table.
    pub fn new() -> (r: Registry)
        ensures
            r@ == Seq::<(Seq<char>, Seq<char>)>::empty(),
    {
        let r = Registry { entries: Vec::new() };
        assert(r@ =~= Seq::<(Seq<char>, Seq<char>)>::empty());
        r
    }

    /// Registers `value` under `name`, overriding any earlier entry.
    pub fn insert(&mut self, name: &str, value: &str)
        ensures
            final(self)@ == old(self)@.push((name@, value@)),
    {
        let ghost s = self@;
        let e = (name.to_owned(), value.to_owned());
        self.entries.push(e);
        assert(self@ =~= s.push((name@, value@)));
    }

    /// Every entry, in the order registered.
    pub fn entries(&self) -> (r: &Vec<(String, String)>)
        ensures
            r@.map_values(|e: (String, String)| (e.0@, e.1@)) == self@,
    {
        &self.entries
    }

    /// The entry registered last under `name`; `None` where there is none.
    pub fn get(&self, name: &str) -> (r: Option<&String>)
        ensures
            match r {
                Some(v) => last_binding(self@, name@) == Some(v@),
                None => last_binding(self@, name@) is None,
            },
    {
        let key = name.to_owned();
        let mut i: usize = self.entries.len();
        assert(self@.take(i as int) =~= self@);
        while i > 0
            invariant
                0 <= i <= self@.len(),
                self@.len() == self.entries@.len(),
                key@ == name@,
                last_binding(self@, name@) == last_binding(self@.take(i as int), name@),
            decreases i,
        {
            assert(self@.take(i as int).drop_last() =~= self@.take(i - 1));
            assert(self@.take(i as int).last() == self@[i - 1]);
            assert(self@[i - 1] == (self.entries@[i - 1].0@, self.entries@[i - 1].1@));
            if self.entries[i - 1].0 == key {
                assert(last_binding(self@.take(i as int), name@) == Some(self.entries@[i - 1].1@));
                return Some(&self.entries[i - 1].1);
            }
            i -= 1;
        }
        None
    }
}

/// A set of route bindings from a path to a handler. Merging keeps every
/// binding; where two bind the same path, the one merged last wins.
pub struct Router {
    routes: Vec<(String, u64)>,
}

impl View for Router {
    type V = Seq<(Seq<char>, u64)>;

    closed spec fn view(&self) -> Seq<(Seq<char>, u64)> {
        self.routes@.map_values(|e: (String, u64)| (e.0@, e.1))
    }
}

impl Router {
    /// A router without routes.
    pub fn new() -> (r: Router)
        ensures
            r@ == Seq::<(Seq<char>, u64)>::empty(),
    {
        let r = Router { routes: Vec::new() };
        assert(r@ =~= Seq::<(Seq<char>, u64)>::empty());
        r
    }

    /// Binds `path` to `handler`.
    pub fn route(&mut self, path: &str, handler: u64)
        ensures
            final(self)@ == old(self)@.push((path@, handler)),
    {
        let ghost s = self@;
        self.routes.push((path.to_owned(), handler));
        assert(self@ =~= s.push((path@, handler)));
    }

    /// Adds every binding of `other` after those of `self`.
    pub fn merge(&mut self, other: Router)
        ensures
            final(self)@ == old(self)@ + other@,
    {
        let ghost s = self@;
        let ghost o = other@;
        let mut rest = other.routes;
        self.routes.append(&mut rest);
        assert(self@ =~= s + o);
    }

    /// Every binding, in the order bound.
    pub fn bindings(&self) -> (r: &Vec<(String, u64)>)
        ensures
            r@.map_values(|e: (String, u64)| (e.0@, e.1)) == self@,
    {
        &self.routes
    }

    /// The handler bound last to `path`.
    pub fn handler(&self, path: &str) -> (r: Option<u64>)
        ensures
            r == last_binding(self@, path@),
    {
        let key = path.to_owned();
        let mut i: usize = self.routes.len();
        assert(self@.take(i as int) =~= self@);
        while i > 0
            invariant
                0 <= i <= self@.len(),
                self@.len() == self.routes@.len(),
                key@ == path@,
                last_binding(self@, path@) == last_binding(self@.take(i as int), path@),
            decreases i,
        {
            assert(self@.take(i as int).drop_last() =~= self@.take(i - 1));
            assert(self@.take(i as int).last() == self@[i - 1]);
            assert(self@[i - 1] == (self.routes@[i - 1].0@, self.routes@[i - 1].1));
            if self.routes[i - 1].0 == key {
                assert(last_binding(self@.take(i as int), path@) == Some(self.routes@[i - 1].1));
                return Some(self.routes[i - 1].1);
            }
            i -= 1;
        }
        None
    }
}

/// Platform options that plugins may read and change while the application
/// is assembled.
pub struct Settings {
    pub title: String,
    pub location_url: String,
}

/// The mathematical view of the settings.
pub struct SettingsView {
    pub title: Seq<char>,
    pub location_url: Seq<char>,
}

impl View for Settings {
    type V = SettingsView;

    open spec fn view(&self) -> SettingsView {
        SettingsView { title: self.title@, location_url: self.location_url@ }
    }
}

/// The backend that stores uploaded files: the platform's local one, or one
/// that a plugin supplies, by the handle that plugin gave it.
#[derive(Clone, Copy, Debug, PartialEq, Eq, Structural)]
pub enum UploadProvider {
    Local,
    Custom(u64),
}

/// What a plugin sees when asked for an upload provider: the settings and
/// the store, both read-only.
pub struct UploadProviderContext<'a, D> {
    pub settings: &'a Settings,
    pub db: &'a D,
}

/// The build-time resources that plugins change in turn.
pub struct RunContext {
    /// The upload provider that negotiation selected.
    pub upload_provider: UploadProvider,
    /// Templates by name.
    pub templates: Registry,
    /// Localized strings by key.
    pub localizations: Registry,
    pub settings: Settings,
}

/// The mathematical view of a build context.
pub struct RunContextView {
    pub upload_provider: UploadProvider,
    pub templates: Seq<(Seq<char>, Seq<char>)>,
    pub localizations: Seq<(Seq<char>, Seq<char>)>,
    pub settings: SettingsView,
}

impl View for RunContext {
    type V = RunContextView;

    open spec fn view(&self) -> RunContextView {
        RunContextView {
            upload_provider: self.upload_provider,
            templates: self.templates@,
            localizations: self.localizations@,
            settings: self.settings@,
        }
    }
}

/// A plugin's failure, which aborts the assembly of the application.
pub struct AssemblyError {
    pub message: String,
}

/// The routes a run produced, or the message of its failure.
pub type RunOutcome = Result<Seq<(Seq<char>, u64)>, Seq<char>>;

/// The mathematical view of what a run returned.
pub open spec fn run_outcome(r: Result<Router, AssemblyError>) -> RunOutcome {
    match r {
        Ok(router) => Ok(router@),
        Err(e) => Err(e.message@),
    }
}

/// An extension of the platform. Each capability is stated by a spec
/// function that the executable method must agree with. Unless a plugin
/// states otherwise, it supplies no upload provider, leaves the context and
/// the store alone, and adds no routes.
pub trait Plugin {
    /// The upload provider this plugin supplies under these settings and
    /// this stored state.
    open spec fn offered_upload_provider(&self, settings: SettingsView, store: StoreView) -> Option<UploadProvider> {
        None
    }

    /// The context and stored state this plugin leaves behind, and the
    /// routes it contributes.
    open spec fn run_effect(&self, context: RunContextView, store: StoreView) -> (RunContextView, StoreView, RunOutcome) {
        (context, store, Ok(Seq::empty()))
    }

    /// Supplies a custom upload provider, or `None` to defer.
    fn upload_provider<D: Database>(&self, context: &UploadProviderContext<D>) -> (r: Option<UploadProvider>)
        ensures
            r == self.offered_upload_provider(context.settings@, context.db.model()),
    ;

    /// Changes the build context, and possibly the store, and returns
    /// routes to merge.
    fn run<D: Database>(&self, context: &mut RunContext, db: &mut D) -> (r: Result<Router, AssemblyError>)
        requires
            old(db).well_formed(),
        ensures
            final(db).well_formed(),
            final(context)@ == self.run_effect(old(context)@, old(db).model()).0,
            final(db).model() == self.run_effect(old(context)@, old(db).model()).1,
            run_outcome(r) == self.run_effect(old(context)@, old(db).model()).2,
    ;
}

/// The plugin that does nothing.
impl Plugin for () {
    fn upload_provider<D: Database>(&self, context: &UploadProviderContext<D>) -> (r: Option<UploadProvider>) {
        None
    }

    fn run<D: Database>(&self, context: &mut RunContext, db: &mut D) -> (r: Result<Router, AssemblyError>) {
        Ok(Router::new())
    }
}

/// The first provider offered when the plugins are asked from the last
/// declared to the first; `None` where every plugin defers.
pub open spec fn first_offer<P: Plugin>(plugins: Seq<P>, settings: SettingsView, store: StoreView) -> Option<UploadProvider>
    decreases plugins.len(),
{
    if plugins.len() == 0 {
        None
    } else {
        match plugins.last().offered_upload_provider(settings, store) {
            Some(u) => Some(u),
            None => first_offer(plugins.drop_last(), settings, store),
        }
    }
}

/// The upload provider that negotiation selects: the first one offered,
/// asking the last-declared plugin first; where none is offered, the
/// platform's local provider.
pub open spec fn negotiated_upload_provider<P: Plugin>(plugins: Seq<P>, settings: SettingsView, store: StoreView) -> UploadProvider {
    match first_offer(plugins, settings, store) {
        Some(u) => u,
        None => UploadProvider::Local,
    }
}

/// Routes `first` ahead of the outcome of the runs that follow.
pub open spec fn routes_before(first: Seq<(Seq<char>, u64)>, rest: RunOutcome) -> RunOutcome {
    match rest {
        Ok(routes) => Ok(first + routes),
        Err(e) => Err(e),
    }
}

/// Runs the plugins in declared order, each on the context and stored state
/// the one before left, stopping at the first failure; the routes are
/// merged in declared order.
pub open spec fn run_all<P: Plugin>(plugins: Seq<P>, context: RunContextView, store: StoreView) -> (
    RunContextView,
    StoreView,
    RunOutcome,
)
    decreases plugins.len(),
{
    if plugins.len() == 0 {
        (context, store, Ok(Seq::empty()))
    } else {
        let (c1, s1, r1) = plugins[0].run_effect(context, store);
        match r1 {
            Err(e) => (c1, s1, Err(e)),
            Ok(routes) => {
                let (c2, s2, r2) = run_all(plugins.subrange(1, plugins.len() as int), c1, s1);
                (c2, s2, routes_before(routes, r2))
            },
        }
    }
}

/// Selects the upload provider: asks the plugins from the last declared
/// to the first, stops at the first that supplies one, and falls back to
/// the local provider.
pub fn negotiate_upload_provider<P: Plugin, D: Database>(plugins: &Vec<P>, context: &UploadProviderContext<D>) -> (r:
    UploadProvider)
    ensures
        r == negotiated_upload_provider(plugins@, context.settings@, context.db.model()),
{
    match plugins.upload_provider(context) {
        Some(u) => u,
        None => UploadProvider::Local,
    }
}

/// An ordered list of plugins composes into one plugin: asked for an upload
/// provider, it asks its members from the last declared to the first and
/// passes on the first offer; run, it runs them in declared order.
impl<P: Plugin> Plugin for Vec<P> {
    open spec fn offered_upload_provider(&self, settings: SettingsView, store: StoreView) -> Option<UploadProvider> {
        first_offer(self@, settings, store)
    }

    open spec fn run_effect(&self, context: RunContextView, store: StoreView) -> (RunContextView, StoreView, RunOutcome) {
        run_all(self@, context, store)
    }

    fn upload_provider<D: Database>(&self, context: &UploadProviderContext<D>) -> (r: Option<UploadProvider>) {
        let mut i: usize = self.len();
        assert(self@.take(i as int) =~= self@);
        while i > 0
            invariant
                0 <= i <= self@.len(),
                first_offer(self@, context.settings@, context.db.model()) == first_offer(
                    self@.take(i as int),
                    context.settings@,
                    context.db.model(),
                ),
            decreases i,
        {
            assert(self@.take(i as int).drop_last() =~= self@.take(i - 1));
            assert(self@.take(i as int).last() == self@[i - 1]);
            match self[i - 1].upload_provider(context) {
                Some(u) => {
                    return Some(u);
                },
                None => {},
            }
            i -= 1;
        }
        None
    }

    fn run<D: Database>(&self, context: &mut RunContext, db: &mut D) -> (r: Result<Router, AssemblyError>) {
        run_plugins(self, context, db)
    }
}

/// Runs every plugin once, in declared order, each seeing the changes of
/// those before it to the context and the store, and merges their routes
/// in that order. The first failure stops the run and is returned.
pub fn run_plugins<P: Plugin, D: Database>(plugins: &Vec<P>, context: &mut RunContext, db: &mut D) -> (r: Result<
    Router,
    AssemblyError,
>)
    requires
        old(db).well_formed(),
    ensures
        final(db).well_formed(),
        final(context)@ == run_all(plugins@, old(context)@, old(db).model()).0,
        final(db).model() == run_all(plugins@, old(context)@, old(db).model()).1,
        run_outcome(r) == run_all(plugins@, old(context)@, old(db).model()).2,
{
    let mut router = Router::new();
    let mut i: usize = 0;
    assert(plugins@.skip(0) =~= plugins@);
    while i < plugins.len()
        invariant
            0 <= i <= plugins@.len(),
            db.well_formed(),
            run_all(plugins@, old(context)@, old(db).model()) == ({
                let (cf, sf, rf) = run_all(plugins@.skip(i as int), context@, db.model());
                (cf, sf, routes_before(router@, rf))
            }),
        decreases plugins@.len() - i,
    {
        let ghost r0 = router@;
        assert(plugins@.skip(i as int)[0] == plugins@[i as int]);
        assert(plugins@.skip(i as int).subrange(1, plugins@.skip(i as int).len() as int) =~= plugins@.skip(i + 1));
        match plugins[i].run(context, db) {
            Ok(routes) => {
                let ghost rt = routes@;
                router.merge(routes);
                i += 1;
                proof {
                    let (cf, sf, rf) = run_all(plugins@.skip(i as int), context@, db.model());
                    match rf {
                        Ok(x) => {
                            assert(r0 + (rt + x) =~= (r0 + rt) + x);
                        },
                        Err(_) => {},
                    }
                }
            },
            Err(e) => {
                return Err(e);
            },
        }
    }
    assert(router@ + Seq::<(Seq<char>, u64)>::empty() =~= router@);
    Ok(router)
}

/// Assembles the application: first selects the upload provider, then runs
/// every plugin on a context that holds it. Returns the merged routes and
/// the final context, or the first plugin failure.
pub fn assemble<P: Plugin, D: Database>(
    plugins: &Vec<P>,
    settings: Settings,
    templates: Registry,
    localizations: Registry,
    db: &mut D,
) -> (r: Result<(Router, RunContext), AssemblyError>)
    requires
        old(db).well_formed(),
    ensures
        final(db).well_formed(),
        ({
            let start = RunContextView {
                upload_provider: negotiated_upload_provider(plugins@, settings@, old(db).model()),
                templates: templates@,
                localizations: localizations@,
                settings: settings@,
            };
            let (cf, sf, rf) = run_all(plugins@, start, old(db).model());
            &&& final(db).model() == sf
            &&& match r {
                Ok((router, context)) => rf == Ok::<_, Seq<char>>(router@) && context@ == cf,
                Err(e) => rf == Err::<Seq<(Seq<char>, u64)>, _>(e.message@),
            }
        }),
{
    let upload_provider = negotiate_upload_provider(plugins, &UploadProviderContext { settings: &settings, db: &*db });
    let mut context = RunContext { upload_provider, templates, localizations, settings };
    match run_plugins(plugins, &mut context, db) {
        Ok(router) => Ok((router, context)),
        Err(e) => Err(e),
    }
}

/// The composed plugin, and so negotiation, yields the provider of the
/// last-declared plugin that offers one; plugins declared after it are all
/// asked and all defer.
pub proof fn upload_provider_last_offer_wins<P: Plugin>(plugins: Seq<P>, settings: SettingsView, store: StoreView, k: int)
    requires
        0 <= k < plugins.len(),
        plugins[k].offered_upload_provider(settings, store) is Some,
        forall|j: int| k < j < plugins.len() ==> (#[trigger] plugins[j]).offered_upload_provider(settings, store) is None,
    ensures
        first_offer(plugins, settings, store) == plugins[k].offered_upload_provider(settings, store),
        negotiated_upload_provider(plugins, settings, store) == plugins[k].offered_upload_provider(settings, store)->0,
    decreases plugins.len(),
{
    if k < plugins.len() - 1 {
        let rest = plugins.drop_last();
        assert(plugins.last() == plugins[plugins.len() - 1]);
        assert forall|j: int| k < j < rest.len() implies (#[trigger] rest[j]).offered_upload_provider(settings, store) is None by {
            assert(rest[j] == plugins[j]);
        }
        upload_provider_last_offer_wins(rest, settings, store, k);
    }
}

/// Where no plugin offers an upload provider, the local one is selected.
pub proof fn upload_provider_defaults_to_local<P: Plugin>(plugins: Seq<P>, settings: SettingsView, store: StoreView)
    requires
        forall|j: int| 0 <= j < plugins.len() ==> (#[trigger] plugins[j]).offered_upload_provider(settings, store) is None,
    ensures
        first_offer(plugins, settings, store) is None,
        negotiated_upload_provider(plugins, settings, store) == UploadProvider::Local,
    decreases plugins.len(),
{
    if plugins.len() > 0 {
        let rest = plugins.drop_last();
        assert(plugins.last() == plugins[plugins.len() - 1]);
        assert forall|j: int| 0 <= j < rest.len() implies (#[trigger] rest[j]).offered_upload_provider(settings, store) is None by {
            assert(rest[j] == plugins[j]);
        }
        upload_provider_defaults_to_local(rest, settings, store);
    }
}

/// Of two plugins declared in the order `a`, `b`, `b` runs on the context
/// and stored state that `a` left, so it observes every change `a` made;
/// the routes of both are kept, `a`'s first.
pub proof fn run_effects_are_sequential<P: Plugin>(a: P, b: P, context: RunContextView, store: StoreView)
    ensures
        ({
            let (c1, s1, r1) = a.run_effect(context, store);
            let (c2, s2, r2) = b.run_effect(c1, s1);
            let (cf, sf, rf) = run_all(seq![a, b], context, store);
            r1 is Ok ==> cf == c2 && sf == s2 && (r2 is Ok ==> rf == Ok::<_, Seq<char>>(r1->Ok_0 + r2->Ok_0))
        }),
{
    let ps = seq![a, b];
    let (c1, s1, r1) = a.run_effect(context, store);
    assert(ps[0] == a);
    assert(ps.subrange(1, 2) =~= seq![b]);
    assert(seq![b].subrange(1, 1) =~= Seq::<P>::empty());
    let (c2, s2, r2) = b.run_effect(c1, s1);
    let e = run_all(Seq::<P>::empty(), c2, s2);
    assert(e == (c2, s2, Ok::<_, Seq<char>>(Seq::<(Seq<char>, u64)>::empty())));
    let (cb, sb, rb) = run_all(seq![b], c1, s1);
    assert(seq![b][0] == b);
    assert(cb == c2 && sb == s2);
    if r2 is Ok {
        assert(r2->Ok_0 + Seq::<(Seq<char>, u64)>::empty() =~= r2->Ok_0);
        assert(rb == Ok::<_, Seq<char>>(r2->Ok_0));
    }
}

} // verus!
