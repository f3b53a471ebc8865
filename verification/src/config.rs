//! The settings of the application: the proxy, the statistics, the actions and the blacklist.

use crate::events::copy_text;
use crate::foreign::opt_view;
use crate::text::same_text;
use vstd::prelude::*;

verus! {

/// The parameters of an action, by name. No name occurs twice.
#[derive(Debug)]
pub struct Params {
    entries: Vec<(String, String)>,
}

/// The value of the first entry with a name.
spec fn lookup(entries: Seq<(String, String)>, key: Seq<char>) -> Option<Seq<char>>
    decreases entries.len(),
{
    if entries.len() == 0 {
        None
    } else if entries[0].0@ == key {
        Some(entries[0].1@)
    } else {
        lookup(entries.drop_first(), key)
    }
}

spec fn distinct_names(entries: Seq<(String, String)>) -> bool {
    forall|i: int, j: int|
        0 <= i < j < entries.len() ==> #[trigger] entries[i].0@ != #[trigger] entries[j].0@
}

proof fn lemma_lookup_hit(entries: Seq<(String, String)>, key: Seq<char>, i: int)
    requires
        0 <= i < entries.len(),
        entries[i].0@ == key,
        distinct_names(entries),
    ensures
        lookup(entries, key) == Some(entries[i].1@),
    decreases entries.len(),
{
    if entries[0].0@ == key {
        assert(i == 0);
    } else {
        let rest = entries.drop_first();
        assert forall|a: int, b: int| 0 <= a < b < rest.len() implies #[trigger] rest[a].0@
            != #[trigger] rest[b].0@ by {
            assert(entries[a + 1].0@ != entries[b + 1].0@);
        }
        lemma_lookup_hit(rest, key, i - 1);
    }
}

proof fn lemma_lookup_miss(entries: Seq<(String, String)>, key: Seq<char>)
    requires
        forall|i: int| 0 <= i < entries.len() ==> (#[trigger] entries[i]).0@ != key,
    ensures
        lookup(entries, key) is None,
    decreases entries.len(),
{
    if entries.len() > 0 {
        let rest = entries.drop_first();
        assert forall|i: int| 0 <= i < rest.len() implies (#[trigger] rest[i]).0@ != key by {
            assert(rest[i] == entries[i + 1]);
        }
        assert(entries[0].0@ != key);
        lemma_lookup_miss(rest, key);
    }
}

impl View for Params {
    type V = Map<Seq<char>, Seq<char>>;

    closed spec fn view(&self) -> Map<Seq<char>, Seq<char>> {
        Map::new(
            |key: Seq<char>| lookup(self.entries@, key) is Some,
            |key: Seq<char>| lookup(self.entries@, key)->0,
        )
    }
}

impl Params {
    #[verifier::type_invariant]
    spec fn well_formed(self) -> bool {
        distinct_names(self.entries@)
    }

    /// No parameters.
    pub fn new() -> (r: Params)
        ensures
            r@ == Map::<Seq<char>, Seq<char>>::empty(),
    {
        let r = Params { entries: Vec::new() };
        assert(r@ =~= Map::<Seq<char>, Seq<char>>::empty());
        r
    }

    fn position(&self, key: &str) -> (r: Option<usize>)
        ensures
            match r {
                Some(i) => i < self.entries@.len() && self.entries@[i as int].0@ == key@,
                None => forall|i: int|
                    0 <= i < self.entries@.len() ==> (#[trigger] self.entries@[i]).0@ != key@,
            },
    {
        let mut i: usize = 0;
        while i < self.entries.len()
            invariant
                i <= self.entries@.len(),
                forall|j: int| 0 <= j < i ==> (#[trigger] self.entries@[j]).0@ != key@,
            decreases self.entries@.len() - i,
        {
            if same_text(self.entries[i].0.as_str(), key) {
                return Some(i);
            }
            i += 1;
        }
        None
    }

    /// The value of a parameter.
    pub fn get(&self, key: &str) -> (r: Option<&String>)
        ensures
            match r {
                Some(value) => self@.contains_key(key@) && value@ == self@[key@],
                None => !self@.contains_key(key@),
            },
    {
        proof {
            use_type_invariant(self);
        }
        match self.position(key) {
            Some(i) => {
                proof {
                    lemma_lookup_hit(self.entries@, key@, i as int);
                }
                Some(&self.entries[i].1)
            },
            None => {
                proof {
                    lemma_lookup_miss(self.entries@, key@);
                }
                None
            },
        }
    }

    /// Sets a parameter, in place of the value that it may have had.
    pub fn insert(&mut self, key: String, value: String)
        ensures
            final(self)@ == old(self)@.insert(key@, value@),
    {
        proof {
            use_type_invariant(&*self);
        }
        let ghost before = self.entries@;
        let found = self.position(key.as_str());
        let mut entries: Vec<(String, String)> = Vec::new();
        std::mem::swap(&mut entries, &mut self.entries);
        let ghost k = key@;
        let ghost v = value@;
        match found {
            Some(i) => {
                entries.set(i, (key, value));
                assert(entries@ == before.update(i as int, (key, value)));
            },
            None => {
                entries.push((key, value));
            },
        }
        let ghost after = entries@;
        let ghost at: int = match found {
            Some(i) => i as int,
            None => before.len() as int,
        };
        assert(after[at].0@ == k && after[at].1@ == v);
        assert(distinct_names(after));
        self.entries = entries;
        proof {
            assert forall|q: Seq<char>| #[trigger] lookup(after, q) == (if q == k {
                Some(v)
            } else {
                lookup(before, q)
            }) by {
                lemma_lookup_changed(before, after, k, v, q);
            }
            assert(self@ =~= old(self)@.insert(k, v));
        }
    }

    /// The parameters with their values.
    pub fn entries(&self) -> (r: &Vec<(String, String)>)
        ensures
            forall|i: int|
                0 <= i < r@.len() ==> self@.contains_key((#[trigger] r@[i]).0@) && self@[r@[i].0@]
                    == r@[i].1@,
            forall|i: int, j: int|
                0 <= i < j < r@.len() ==> #[trigger] r@[i].0@ != #[trigger] r@[j].0@,
            forall|key: Seq<char>|
                self@.contains_key(key) ==> exists|i: int|
                    0 <= i < r@.len() && (#[trigger] r@[i]).0@ == key,
    {
        proof {
            use_type_invariant(self);
            let list = self.entries@;
            assert forall|i: int| 0 <= i < list.len() implies self@.contains_key(
                (#[trigger] list[i]).0@,
            ) && self@[list[i].0@] == list[i].1@ by {
                lemma_lookup_hit(list, list[i].0@, i);
            }
            assert forall|key: Seq<char>| self@.contains_key(key) implies exists|i: int|
                0 <= i < list.len() && (#[trigger] list[i]).0@ == key by {
                if forall|i: int| 0 <= i < list.len() ==> (#[trigger] list[i]).0@ != key {
                    lemma_lookup_miss(list, key);
                }
            }
        }
        &self.entries
    }
}

proof fn lemma_lookup_changed(
    before: Seq<(String, String)>,
    after: Seq<(String, String)>,
    k: Seq<char>,
    v: Seq<char>,
    q: Seq<char>,
)
    requires
        distinct_names(before),
        distinct_names(after),
        exists|i: int| 0 <= i < after.len() && (#[trigger] after[i]).0@ == k && after[i].1@ == v,
        forall|i: int|
            0 <= i < before.len() && (#[trigger] before[i]).0@ != k ==> i < after.len() && after[i]
                == before[i],
        forall|i: int|
            0 <= i < after.len() && (#[trigger] after[i]).0@ != k ==> i < before.len() && after[i]
                == before[i],
    ensures
        lookup(after, q) == (if q == k {
            Some(v)
        } else {
            lookup(before, q)
        }),
{
    if q == k {
        let i = choose|i: int|
            0 <= i < after.len() && (#[trigger] after[i]).0@ == k && after[i].1@ == v;
        lemma_lookup_hit(after, q, i);
    } else if exists|i: int| 0 <= i < before.len() && (#[trigger] before[i]).0@ == q {
        let i = choose|i: int| 0 <= i < before.len() && (#[trigger] before[i]).0@ == q;
        lemma_lookup_hit(before, q, i);
        lemma_lookup_hit(after, q, i);
    } else {
        lemma_lookup_miss(before, q);
        lemma_lookup_miss(after, q);
    }
}

impl Clone for Params {
    fn clone(&self) -> (r: Self)
        ensures
            r@ == self@,
    {
        proof {
            use_type_invariant(self);
        }
        let mut entries: Vec<(String, String)> = Vec::new();
        let mut i: usize = 0;
        while i < self.entries.len()
            invariant
                i <= self.entries@.len(),
                entries@ == self.entries@.take(i as int),
            decreases self.entries@.len() - i,
        {
            entries.push((self.entries[i].0.clone(), self.entries[i].1.clone()));
            assert(entries@ =~= self.entries@.take(i + 1));
            i += 1;
        }
        assert(entries@ == self.entries@);
        Params { entries }
    }
}

/// How requests leave the proxy.
#[derive(Debug, Clone, Copy, PartialEq, Eq, Structural)]
pub enum NetworkMode {
    Auto,
    Direct,
    Http,
    Socks5,
}

/// The part of a request that a rule looks at.
#[derive(Debug, Clone, Copy, PartialEq, Eq, Structural)]
pub enum MatchTarget {
    Host,
    Url,
    Path,
    Header,
}

/// How a rule compares its pattern.
#[derive(Debug, Clone, Copy, PartialEq, Eq, Structural)]
pub enum MatchMode {
    Exact,
    Contains,
    Glob,
    Regex,
}

/// The listener and the way out.
#[derive(Debug)]
pub struct ProxyConfig {
    /// The socket address of the listener, as text.
    pub listen: String,
    pub network_mode: NetworkMode,
    pub upstream_proxy: Option<String>,
}

/// How the application starts.
#[derive(Debug, Clone, Copy, PartialEq, Eq, Structural)]
pub struct StartupConfig {
    pub start_minimized: bool,
}

/// What the statistics keep.
#[derive(Debug, Clone, Copy, PartialEq, Eq, Structural)]
pub struct AnalyticsConfig {
    pub detailed_logging: bool,
    pub detailed_retention_days: u32,
    pub aggregate_retention_days: u32,
}

/// An action that rules can name.
#[derive(Debug)]
pub struct ActionDefinition {
    pub id: String,
    pub kind: String,
    pub enabled: bool,
    pub params: Params,
}

/// A rule of the blacklist.
#[derive(Debug)]
pub struct Rule {
    pub id: String,
    pub enabled: bool,
    pub target: MatchTarget,
    pub mode: MatchMode,
    pub pattern: String,
    pub methods: Vec<String>,
    pub header_name: Option<String>,
    pub actions: Vec<String>,
}

/// All settings.
#[derive(Debug)]
pub struct AppConfig {
    pub proxy: ProxyConfig,
    pub startup: StartupConfig,
    pub analytics: AnalyticsConfig,
    pub actions: Vec<ActionDefinition>,
    pub blacklist: Vec<Rule>,
}

/// `ProxyConfig` as a value.
#[verifier::ext_equal]
pub struct ProxyConfigView {
    pub listen: Seq<char>,
    pub network_mode: NetworkMode,
    pub upstream_proxy: Option<Seq<char>>,
}

/// `ActionDefinition` as a value.
#[verifier::ext_equal]
pub struct ActionDefinitionView {
    pub id: Seq<char>,
    pub kind: Seq<char>,
    pub enabled: bool,
    pub params: Map<Seq<char>, Seq<char>>,
}

/// `Rule` as a value.
#[verifier::ext_equal]
pub struct RuleView {
    pub id: Seq<char>,
    pub enabled: bool,
    pub target: MatchTarget,
    pub mode: MatchMode,
    pub pattern: Seq<char>,
    pub methods: Seq<Seq<char>>,
    pub header_name: Option<Seq<char>>,
    pub actions: Seq<Seq<char>>,
}

/// `AppConfig` as a value.
#[verifier::ext_equal]
pub struct AppConfigView {
    pub proxy: ProxyConfigView,
    pub startup: StartupConfig,
    pub analytics: AnalyticsConfig,
    pub actions: Seq<ActionDefinitionView>,
    pub blacklist: Seq<RuleView>,
}

/// The texts of a list of strings.
pub open spec fn texts(list: Seq<String>) -> Seq<Seq<char>> {
    list.map_values(|s: String| s@)
}

/// The values of a list of actions.
pub open spec fn action_views(list: Seq<ActionDefinition>) -> Seq<ActionDefinitionView> {
    list.map_values(|a: ActionDefinition| a@)
}

/// The values of a list of rules.
pub open spec fn rule_views(list: Seq<Rule>) -> Seq<RuleView> {
    list.map_values(|r: Rule| r@)
}

impl View for ProxyConfig {
    type V = ProxyConfigView;

    open spec fn view(&self) -> ProxyConfigView {
        ProxyConfigView {
            listen: self.listen@,
            network_mode: self.network_mode,
            upstream_proxy: opt_view(self.upstream_proxy),
        }
    }
}

impl View for ActionDefinition {
    type V = ActionDefinitionView;

    open spec fn view(&self) -> ActionDefinitionView {
        ActionDefinitionView {
            id: self.id@,
            kind: self.kind@,
            enabled: self.enabled,
            params: self.params@,
        }
    }
}

impl View for Rule {
    type V = RuleView;

    open spec fn view(&self) -> RuleView {
        RuleView {
            id: self.id@,
            enabled: self.enabled,
            target: self.target,
            mode: self.mode,
            pattern: self.pattern@,
            methods: texts(self.methods@),
            header_name: opt_view(self.header_name),
            actions: texts(self.actions@),
        }
    }
}

impl View for AppConfig {
    type V = AppConfigView;

    open spec fn view(&self) -> AppConfigView {
        AppConfigView {
            proxy: self.proxy@,
            startup: self.startup,
            analytics: self.analytics,
            actions: action_views(self.actions@),
            blacklist: rule_views(self.blacklist@),
        }
    }
}

/// Copies a list of strings.
pub fn copy_texts(list: &[String]) -> (r: Vec<String>)
    ensures
        r@ == list@,
        texts(r@) == texts(list@),
{
    let mut out: Vec<String> = Vec::new();
    let mut i: usize = 0;
    while i < list.len()
        invariant
            i <= list.len(),
            out@ == list@.take(i as int),
        decreases list.len() - i,
    {
        out.push(list[i].clone());
        assert(out@ =~= list@.take(i + 1));
        i += 1;
    }
    assert(out@ == list@);
    out
}

impl Clone for ProxyConfig {
    fn clone(&self) -> (r: Self)
        ensures
            r@ == self@,
    {
        ProxyConfig {
            listen: self.listen.clone(),
            network_mode: self.network_mode,
            upstream_proxy: copy_text(&self.upstream_proxy),
        }
    }
}

impl Clone for ActionDefinition {
    fn clone(&self) -> (r: Self)
        ensures
            r@ == self@,
    {
        ActionDefinition {
            id: self.id.clone(),
            kind: self.kind.clone(),
            enabled: self.enabled,
            params: self.params.clone(),
        }
    }
}

impl Clone for Rule {
    fn clone(&self) -> (r: Self)
        ensures
            r@ == self@,
    {
        Rule {
            id: self.id.clone(),
            enabled: self.enabled,
            target: self.target,
            mode: self.mode,
            pattern: self.pattern.clone(),
            methods: copy_texts(self.methods.as_slice()),
            header_name: copy_text(&self.header_name),
            actions: copy_texts(self.actions.as_slice()),
        }
    }
}

impl Clone for AppConfig {
    fn clone(&self) -> (r: Self)
        ensures
            r@ == self@,
    {
        let mut actions: Vec<ActionDefinition> = Vec::new();
        let mut i: usize = 0;
        while i < self.actions.len()
            invariant
                i <= self.actions@.len(),
                action_views(actions@) =~= action_views(self.actions@.take(i as int)),
            decreases self.actions@.len() - i,
        {
            let ghost before = actions@;
            let copy = self.actions[i].clone();
            actions.push(copy);
            assert(action_views(actions@) =~= action_views(before).push(copy@));
            assert(action_views(self.actions@.take(i + 1)) =~= action_views(
                self.actions@.take(i as int),
            ).push(self.actions@[i as int]@));
            i += 1;
        }
        assert(self.actions@.take(i as int) == self.actions@);
        let mut blacklist: Vec<Rule> = Vec::new();
        let mut k: usize = 0;
        while k < self.blacklist.len()
            invariant
                k <= self.blacklist@.len(),
                rule_views(blacklist@) =~= rule_views(self.blacklist@.take(k as int)),
            decreases self.blacklist@.len() - k,
        {
            let ghost before = blacklist@;
            let copy = self.blacklist[k].clone();
            blacklist.push(copy);
            assert(rule_views(blacklist@) =~= rule_views(before).push(copy@));
            assert(rule_views(self.blacklist@.take(k + 1)) =~= rule_views(
                self.blacklist@.take(k as int),
            ).push(self.blacklist@[k as int]@));
            k += 1;
        }
        assert(self.blacklist@.take(k as int) == self.blacklist@);
        AppConfig {
            proxy: self.proxy.clone(),
            startup: self.startup,
            analytics: self.analytics,
            actions,
            blacklist,
        }
    }
}

/// The settings of the listener at first start.
pub open spec fn default_proxy() -> ProxyConfigView {
    ProxyConfigView {
        listen: "127.0.0.1:8877"@,
        network_mode: NetworkMode::Auto,
        upstream_proxy: None,
    }
}

/// The action that answers a blocked request with the built-in page.
pub open spec fn builtin_page_action() -> ActionDefinitionView {
    ActionDefinitionView {
        id: "blocked-game"@,
        kind: "serve_html"@,
        enabled: true,
        params: Map::<Seq<char>, Seq<char>>::empty().insert("source"@, "builtin:mini-game"@),
    }
}

/// The actions at first start.
pub open spec fn default_actions() -> Seq<ActionDefinitionView> {
    let none = Map::<Seq<char>, Seq<char>>::empty();
    seq![
        ActionDefinitionView {
            id: "blocked-picture"@,
            kind: "popup_image"@,
            enabled: true,
            params: none.insert("source"@, "builtin:blocked"@).insert("duration_ms"@, "4500"@),
        },
        ActionDefinitionView {
            id: "blocked-sound"@,
            kind: "play_audio"@,
            enabled: true,
            params: none.insert("source"@, "builtin:soft-chime"@).insert("volume"@, "0.7"@),
        },
        ActionDefinitionView {
            id: "imported-music"@,
            kind: "play_audio"@,
            enabled: false,
            params: none.insert("source"@, ""@).insert("volume"@, "0.7"@),
        },
        builtin_page_action(),
    ]
}

/// The rules at first start.
pub open spec fn default_rules() -> Seq<RuleView> {
    seq![
        RuleView {
            id: "demo-blocked-path"@,
            enabled: true,
            target: MatchTarget::Url,
            mode: MatchMode::Contains,
            pattern: "example.com/blocked"@,
            methods: Seq::empty(),
            header_name: None,
            actions: seq!["blocked-picture"@, "blocked-sound"@],
        },
        RuleView {
            id: "social-sites-example"@,
            enabled: false,
            target: MatchTarget::Host,
            mode: MatchMode::Glob,
            pattern: "*.example-social.test"@,
            methods: Seq::empty(),
            header_name: None,
            actions: seq!["blocked-picture"@, "blocked-sound"@],
        },
    ]
}

/// The settings at first start.
pub open spec fn default_config() -> AppConfigView {
    AppConfigView {
        proxy: default_proxy(),
        startup: StartupConfig { start_minimized: false },
        analytics: AnalyticsConfig {
            detailed_logging: true,
            detailed_retention_days: 7,
            aggregate_retention_days: 90,
        },
        actions: default_actions(),
        blacklist: default_rules(),
    }
}

impl Default for NetworkMode {
    fn default() -> (r: Self)
        ensures
            r == NetworkMode::Auto,
    {
        NetworkMode::Auto
    }
}

impl Default for MatchTarget {
    fn default() -> (r: Self)
        ensures
            r == MatchTarget::Host,
    {
        MatchTarget::Host
    }
}

impl Default for MatchMode {
    fn default() -> (r: Self)
        ensures
            r == MatchMode::Contains,
    {
        MatchMode::Contains
    }
}

impl Default for StartupConfig {
    fn default() -> (r: Self)
        ensures
            !r.start_minimized,
    {
        StartupConfig { start_minimized: false }
    }
}

impl Default for AnalyticsConfig {
    fn default() -> (r: Self)
        ensures
            r.detailed_logging,
            r.detailed_retention_days == 7,
            r.aggregate_retention_days == 90,
    {
        AnalyticsConfig {
            detailed_logging: true,
            detailed_retention_days: 7,
            aggregate_retention_days: 90,
        }
    }
}

impl Default for ProxyConfig {
    fn default() -> (r: Self)
        ensures
            r@ == default_proxy(),
    {
        ProxyConfig {
            listen: "127.0.0.1:8877".to_owned(),
            network_mode: NetworkMode::Auto,
            upstream_proxy: None,
        }
    }
}

/// One parameter.
fn one_param(name: &str, value: &str) -> (r: Params)
    ensures
        r@ == Map::<Seq<char>, Seq<char>>::empty().insert(name@, value@),
{
    let mut params = Params::new();
    params.insert(name.to_owned(), value.to_owned());
    params
}

/// An action out of its parts.
fn action_of(id: &str, kind: &str, enabled: bool, params: Params) -> (r: ActionDefinition)
    ensures
        r@ == (ActionDefinitionView { id: id@, kind: kind@, enabled, params: params@ }),
{
    ActionDefinition { id: id.to_owned(), kind: kind.to_owned(), enabled, params }
}

/// A rule of the first start out of its parts.
fn sample_rule(
    id: &str,
    enabled: bool,
    target: MatchTarget,
    mode: MatchMode,
    pattern: &str,
) -> (r: Rule)
    ensures
        r@ == (RuleView {
            id: id@,
            enabled,
            target,
            mode,
            pattern: pattern@,
            methods: Seq::empty(),
            header_name: None,
            actions: seq!["blocked-picture"@, "blocked-sound"@],
        }),
{
    let mut actions: Vec<String> = Vec::new();
    actions.push("blocked-picture".to_owned());
    actions.push("blocked-sound".to_owned());
    let methods: Vec<String> = Vec::new();
    assert(texts(methods@) =~= Seq::<Seq<char>>::empty());
    assert(texts(actions@) =~= seq!["blocked-picture"@, "blocked-sound"@]);
    Rule {
        id: id.to_owned(),
        enabled,
        target,
        mode,
        pattern: pattern.to_owned(),
        methods,
        header_name: None,
        actions,
    }
}

/// The action that answers a blocked request with the built-in page.
pub fn page_action() -> (r: ActionDefinition)
    ensures
        r@ == builtin_page_action(),
{
    action_of("blocked-game", "serve_html", true, one_param("source", "builtin:mini-game"))
}

impl Default for AppConfig {
    fn default() -> (r: Self)
        ensures
            r@ == default_config(),
    {
        let mut image = one_param("source", "builtin:blocked");
        image.insert("duration_ms".to_owned(), "4500".to_owned());
        let mut chime = one_param("source", "builtin:soft-chime");
        chime.insert("volume".to_owned(), "0.7".to_owned());
        let mut custom = one_param("source", "");
        custom.insert("volume".to_owned(), "0.7".to_owned());
        let mut actions: Vec<ActionDefinition> = Vec::new();
        actions.push(action_of("blocked-picture", "popup_image", true, image));
        actions.push(action_of("blocked-sound", "play_audio", true, chime));
        actions.push(action_of("imported-music", "play_audio", false, custom));
        actions.push(page_action());
        assert(action_views(actions@) =~= default_actions());
        let mut blacklist: Vec<Rule> = Vec::new();
        blacklist.push(
            sample_rule(
                "demo-blocked-path",
                true,
                MatchTarget::Url,
                MatchMode::Contains,
                "example.com/blocked",
            ),
        );
        blacklist.push(
            sample_rule(
                "social-sites-example",
                false,
                MatchTarget::Host,
                MatchMode::Glob,
                "*.example-social.test",
            ),
        );
        assert(rule_views(blacklist@) =~= default_rules());
        AppConfig {
            proxy: ProxyConfig::default(),
            startup: StartupConfig::default(),
            analytics: AnalyticsConfig::default(),
            actions,
            blacklist,
        }
    }
}

/// The first action with an id.
pub open spec fn find_action(
    actions: Seq<ActionDefinitionView>,
    id: Seq<char>,
) -> Option<ActionDefinitionView>
    decreases actions.len(),
{
    if actions.len() == 0 {
        None
    } else if actions[0].id == id {
        Some(actions[0])
    } else {
        find_action(actions.drop_first(), id)
    }
}

/// The value of an optional action.
pub open spec fn opt_action(action: Option<&ActionDefinition>) -> Option<ActionDefinitionView> {
    match action {
        Some(a) => Some(a@),
        None => None,
    }
}

/// Whether some action is of a kind.
pub open spec fn has_kind(actions: Seq<ActionDefinitionView>, kind: Seq<char>) -> bool {
    exists|i: int| 0 <= i < actions.len() && (#[trigger] actions[i]).kind == kind
}

/// Settings as they are used: there is always an action that answers with a page.
pub open spec fn with_page_action(config: AppConfigView) -> AppConfigView {
    if has_kind(config.actions, "serve_html"@) {
        config
    } else {
        AppConfigView { actions: config.actions.push(builtin_page_action()), ..config }
    }
}

impl AppConfig {
    /// The first action with an id.
    pub fn action(&self, id: &str) -> (r: Option<&ActionDefinition>)
        ensures
            opt_action(r) == find_action(self@.actions, id@),
    {
        let ghost all = self@.actions;
        let mut i: usize = 0;
        assert(all.skip(0) =~= all);
        while i < self.actions.len()
            invariant
                i <= self.actions@.len(),
                all == action_views(self.actions@),
                find_action(all, id@) == find_action(all.skip(i as int), id@),
            decreases self.actions@.len() - i,
        {
            assert(all.skip(i as int).drop_first() =~= all.skip(i + 1));
            assert(all.skip(i as int)[0] == self.actions@[i as int]@);
            if same_text(self.actions[i].id.as_str(), id) {
                return Some(&self.actions[i]);
            }
            i += 1;
        }
        None
    }

    /// What stored settings become when they are loaded: without an action that answers with a
    /// page, the built-in one is added at the end.
    pub fn completed(self) -> (r: AppConfig)
        ensures
            r@ == with_page_action(self@),
    {
        let ghost all = self@.actions;
        let mut i: usize = 0;
        while i < self.actions.len()
            invariant
                i <= self.actions@.len(),
                all == action_views(self.actions@),
                forall|j: int| 0 <= j < i ==> (#[trigger] all[j]).kind != "serve_html"@,
            decreases self.actions@.len() - i,
        {
            assert(all[i as int] == self.actions@[i as int]@);
            if same_text(self.actions[i].kind.as_str(), "serve_html") {
                assert(has_kind(all, "serve_html"@));
                return self;
            }
            i += 1;
        }
        assert(!has_kind(all, "serve_html"@));
        let mut config = self;
        config.actions.push(page_action());
        assert(action_views(config.actions@) =~= all.push(builtin_page_action()));
        config
    }
}

/// Loaded settings always hold an action that answers with a page, loading them again changes
/// nothing, and the settings of the first start are complete.
pub proof fn law_loaded_settings_are_complete(config: AppConfigView)
    ensures
        has_kind(with_page_action(config).actions, "serve_html"@),
        with_page_action(with_page_action(config)) == with_page_action(config),
        with_page_action(default_config()) == default_config(),
{
    let more = config.actions.push(builtin_page_action());
    assert(more[config.actions.len() as int].kind == "serve_html"@);
    assert(default_actions()[3].kind == "serve_html"@);
}

/// The steps from the file system's root to the file of the settings: the directory that the
/// platform names for them, else the current one, and the file's name.
pub open spec fn config_path_parts(directory: Option<Seq<char>>) -> Seq<Seq<char>> {
    match directory {
        Some(path) => seq![path, "config.toml"@],
        None => seq!["."@, "config.toml"@],
    }
}

/// The directory of the settings and the name of their file in it. Without a directory of the
/// platform it is the current one.
pub fn config_path(directory: Option<String>) -> (r: Vec<String>)
    ensures
        texts(r@) == config_path_parts(opt_view(directory)),
{
    let mut parts: Vec<String> = Vec::new();
    match directory {
        Some(path) => parts.push(path),
        None => parts.push(".".to_owned()),
    }
    parts.push("config.toml".to_owned());
    assert(texts(parts@) =~= config_path_parts(opt_view(directory)));
    parts
}

/// Of actions of one name the first is found, and one is found wherever there is one.
pub proof fn law_first_action_of_a_name_is_found(
    actions: Seq<ActionDefinitionView>,
    id: Seq<char>,
)
    ensures
        find_action(actions, id) is None <==> forall|k: int|
            0 <= k < actions.len() ==> (#[trigger] actions[k]).id != id,
        find_action(actions, id) matches Some(action) ==> action.id == id && actions.contains(
            action,
        ),
        forall|i: int|
            0 <= i < actions.len() && (#[trigger] actions[i]).id == id && (forall|k: int|
                0 <= k < i ==> (#[trigger] actions[k]).id != id) ==> find_action(actions, id)
                == Some(actions[i]),
    decreases actions.len(),
{
    if actions.len() > 0 {
        let rest = actions.drop_first();
        law_first_action_of_a_name_is_found(rest, id);
        if actions[0].id != id {
            if find_action(rest, id) is None {
                assert forall|k: int| 0 <= k < actions.len() implies (#[trigger] actions[k]).id
                    != id by {
                    if k > 0 {
                        assert(rest[k - 1] == actions[k]);
                    }
                }
            } else {
                let k = choose|k: int| 0 <= k < rest.len() && rest[k] == find_action(rest, id)->0;
                assert(actions[k + 1] == rest[k]);
            }
            assert forall|i: int|
                0 <= i < actions.len() && (#[trigger] actions[i]).id == id && (forall|k: int|
                    0 <= k < i ==> (#[trigger] actions[k]).id != id) implies find_action(actions, id)
                == Some(actions[i]) by {
                assert(rest[i - 1] == actions[i]);
                assert forall|k: int| 0 <= k < i - 1 implies (#[trigger] rest[k]).id != id by {
                    assert(rest[k] == actions[k + 1]);
                }
            }
        }
    }
}

/// Completing settings only adds to them: every action stays where it was, and nothing but a page
/// action, with the built-in page, is added, and only where there was none.
pub proof fn law_completing_keeps_the_settings(config: AppConfigView)
    ensures
        ({
            let after = with_page_action(config);
            &&& after.proxy == config.proxy
            &&& after.startup == config.startup
            &&& after.analytics == config.analytics
            &&& after.blacklist == config.blacklist
            &&& config.actions.len() <= after.actions.len() <= config.actions.len() + 1
            &&& forall|i: int|
                0 <= i < config.actions.len() ==> #[trigger] after.actions[i] == config.actions[i]
            &&& (exists|i: int|
                0 <= i < config.actions.len() && (#[trigger] config.actions[i]).kind
                    == "serve_html"@) <==> after == config
            &&& after.actions.len() > config.actions.len() ==> {
                let added = after.actions.last();
                &&& added.kind == "serve_html"@
                &&& added.enabled
                &&& added.params.contains_key("source"@)
                &&& added.params["source"@] == "builtin:mini-game"@
            }
        }),
{
    if !has_kind(config.actions, "serve_html"@) {
        assert(with_page_action(config).actions.len() == config.actions.len() + 1);
    }
}

/// The settings at the start: the listener is on this machine only, with the automatic way out, no
/// hidden window, details for a week and statistics for three months.
pub proof fn law_settings_start_safe()
    ensures
        ({
            let config = default_config();
            &&& config.proxy.listen == "127.0.0.1:8877"@
            &&& config.proxy.network_mode == NetworkMode::Auto
            &&& config.proxy.upstream_proxy is None
            &&& !config.startup.start_minimized
            &&& config.analytics.detailed_logging
            &&& config.analytics.detailed_retention_days == 7
            &&& config.analytics.aggregate_retention_days == 90
            &&& forall|i: int, k: int|
                0 <= i < config.blacklist.len() && 0 <= k < (#[trigger] config.blacklist[i]).actions.len()
                    ==> has_name(config.actions, #[trigger] config.blacklist[i].actions[k])
        }),
{
    let actions = default_config().actions;
    assert(actions[0].id == "blocked-picture"@);
    assert(actions[1].id == "blocked-sound"@);
    assert(has_name(actions, "blocked-picture"@));
    assert(has_name(actions, "blocked-sound"@));
}

/// Whether some action has a name.
pub open spec fn has_name(actions: Seq<ActionDefinitionView>, id: Seq<char>) -> bool {
    exists|i: int| 0 <= i < actions.len() && (#[trigger] actions[i]).id == id
}

} // verus!
