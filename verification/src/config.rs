//! User configuration (`~/.venus-whisper/config.toml`) as plain data, and the per-workspace
//! command allowlist that the "always allow" answer of an approval card extends.
use vstd::prelude::*;
use crate::path::{expand_home, expand_home_spec, expand_home_with, home_dir, path_eq, path_equal};
use crate::text::{chars_of, string_of};

verus! {

/// Name of the configuration file inside the configuration directory.
pub const CONFIG_FILE: &'static str = "config.toml";

/// Name of the legacy persona file inside the configuration directory.
pub const PERSONA_FILE: &'static str = "persona.md";

/// How much the agent may do without asking.
#[derive(Debug, Clone, Copy, PartialEq, Eq, Structural)]
pub enum ApprovalMode {
    /// Writes and shell commands ask.
    Ask,
    /// Writes run; shell commands ask unless allowlisted.
    AutoEdit,
    /// Everything known runs.
    FullAuto,
}

impl Default for ApprovalMode {
    fn default() -> (r: Self)
        ensures
            r == ApprovalMode::Ask,
    {
        ApprovalMode::Ask
    }
}

/// Command prefixes allowed without asking in one workspace.
#[derive(Debug, Clone, PartialEq)]
pub struct AllowEntry {
    pub workspace: String,
    pub commands: Vec<String>,
}

/// One OpenAI-compatible model endpoint.
#[derive(Debug, Clone, PartialEq)]
pub struct ModelConfig {
    pub id: String,
    pub name: String,
    pub base_url: String,
    pub model: String,
    pub api_key: String,
    /// Context window in tokens; 0 when unknown.
    pub context_window: u32,
}

/// The view of a [`ModelConfig`].
pub struct ModelView {
    pub id: Seq<char>,
    pub name: Seq<char>,
    pub base_url: Seq<char>,
    pub model: Seq<char>,
    pub api_key: Seq<char>,
    pub context_window: u32,
}

impl View for ModelConfig {
    type V = ModelView;

    open spec fn view(&self) -> ModelView {
        ModelView {
            id: self.id@,
            name: self.name@,
            base_url: self.base_url@,
            model: self.model@,
            api_key: self.api_key@,
            context_window: self.context_window,
        }
    }
}

impl ModelConfig {
    /// A field-by-field copy.
    pub fn duplicate(&self) -> (r: Self)
        ensures
            r == *self,
    {
        ModelConfig {
            id: self.id.clone(),
            name: self.name.clone(),
            base_url: self.base_url.clone(),
            model: self.model.clone(),
            api_key: self.api_key.clone(),
            context_window: self.context_window,
        }
    }
}

/// The `[llm]` table: the configured models and the active one, plus the flat legacy form
/// (`base_url` / `model` / `api_key`).
#[derive(Debug, Clone, PartialEq)]
pub struct LlmConfig {
    pub base_url: String,
    pub model: String,
    pub api_key: String,
    pub active: String,
    pub models: Vec<ModelConfig>,
}

/// The `[ui]` table.
#[derive(Debug, Clone, PartialEq)]
pub struct UiConfig {
    pub theme: String,
}

/// The `[agent]` table.
#[derive(Debug, Clone, PartialEq)]
pub struct AgentConfig {
    pub workspace: String,
    pub approval_mode: ApprovalMode,
    pub max_turns: u32,
    /// Active persona id.
    pub persona: String,
    /// Enabled skill ids.
    pub skills: Vec<String>,
    pub allow: Vec<AllowEntry>,
}

/// The whole configuration.
#[derive(Debug, Clone, PartialEq)]
pub struct Config {
    pub llm: LlmConfig,
    pub agent: AgentConfig,
    pub ui: UiConfig,
}

/// The theme used when the configuration names none.
pub fn default_theme() -> (r: String)
    ensures
        r@ == "mint"@,
{
    string_of(&chars_of("mint"))
}

/// The turn limit used when the configuration names none.
pub fn default_max_turns() -> (r: u32)
    ensures
        r == 30,
{
    30
}

impl Default for UiConfig {
    fn default() -> (r: Self)
        ensures
            r.theme@ == "mint"@,
    {
        UiConfig { theme: default_theme() }
    }
}

impl Config {
    /// The configuration that a fresh installation writes: an empty key for a local
    /// LiteLLM endpoint, the home directory as workspace, `ask` mode, 30 turns, the
    /// built-in default persona and the `mint` theme.
    pub fn defaults() -> (r: Self)
        ensures
            r.llm.base_url@ == "http://localhost:4000/v1"@,
            r.llm.model@ == "gpt-4o"@,
            r.llm.api_key@ == Seq::<char>::empty(),
            r.llm.active@ == Seq::<char>::empty(),
            r.llm.models@.len() == 0,
            r.agent.workspace@ == "~"@,
            r.agent.approval_mode == ApprovalMode::Ask,
            r.agent.max_turns == 30,
            r.agent.persona@ == "builtin/venus"@,
            r.agent.skills@.len() == 0,
            r.agent.allow@.len() == 0,
            r.ui.theme@ == "mint"@,
    {
        Config {
            llm: LlmConfig {
                base_url: string_of(&chars_of("http://localhost:4000/v1")),
                model: string_of(&chars_of("gpt-4o")),
                api_key: String::new(),
                active: String::new(),
                models: Vec::new(),
            },
            agent: AgentConfig {
                workspace: string_of(&chars_of("~")),
                approval_mode: ApprovalMode::Ask,
                max_turns: default_max_turns(),
                persona: string_of(&chars_of("builtin/venus")),
                skills: Vec::new(),
                allow: Vec::new(),
            },
            ui: UiConfig::default(),
        }
    }
}

// ---------------------------------------------------------------- models

/// The models in effect: the configured list, or, when it is empty and the flat legacy
/// form names an endpoint or a model, one model with id `default` built from it.
pub open spec fn effective_models(llm: LlmConfig) -> Seq<ModelView> {
    if llm.models@.len() == 0 && (llm.base_url@.len() > 0 || llm.model@.len() > 0) {
        seq![
            ModelView {
                id: "default"@,
                name: llm.model@,
                base_url: llm.base_url@,
                model: llm.model@,
                api_key: llm.api_key@,
                context_window: 0,
            },
        ]
    } else {
        llm.models@.map_values(|m: ModelConfig| m@)
    }
}

/// Index of the first model whose id is `active`.
pub open spec fn first_with_id(models: Seq<ModelView>, id: Seq<char>, from: int) -> Option<int>
    decreases models.len() - from,
{
    if from < 0 || from >= models.len() {
        None
    } else if models[from].id == id {
        Some(from)
    } else {
        first_with_id(models, id, from + 1)
    }
}

impl LlmConfig {
    /// The active model: the first whose id is `active`, else the first one; `None` when
    /// no model is configured. A legacy flat table counts as one model with id `default`.
    pub open spec fn active_model_spec(self) -> Option<ModelView> {
        let ms = effective_models(self);
        if ms.len() == 0 {
            None
        } else {
            match first_with_id(ms, self.active@, 0) {
                Some(i) => Some(ms[i]),
                None => Some(ms[0]),
            }
        }
    }

    /// The model to call.
    pub fn active_model(&self) -> (r: Option<ModelConfig>)
        ensures
            match r {
                Some(m) => self.active_model_spec() == Some(m@),
                None => self.active_model_spec() is None,
            },
    {
        if self.models.len() == 0 {
            if !self.base_url.as_str().is_empty() || !self.model.as_str().is_empty() {
                assert(first_with_id(effective_models(*self), self.active@, 1) is None);
                return Some(
                    ModelConfig {
                        id: string_of(&chars_of("default")),
                        name: self.model.clone(),
                        base_url: self.base_url.clone(),
                        model: self.model.clone(),
                        api_key: self.api_key.clone(),
                        context_window: 0,
                    },
                );
            }
            return None;
        }
        let mut i: usize = 0;
        while i < self.models.len()
            invariant
                i <= self.models@.len(),
                self.models@.len() > 0,
                effective_models(*self) == self.models@.map_values(|m: ModelConfig| m@),
                first_with_id(effective_models(*self), self.active@, 0) == first_with_id(
                    effective_models(*self),
                    self.active@,
                    i as int,
                ),
            decreases self.models@.len() - i,
        {
            if self.models[i].id == self.active {
                return Some(self.models[i].duplicate());
            }
            i = i + 1;
        }
        Some(self.models[0].duplicate())
    }
}

// ---------------------------------------------------------------- allowlist

/// The entry's workspace is the same path as `ws`, both with `~` expanded.
pub open spec fn entry_matches(e: AllowEntry, ws: Seq<char>, home: Option<Seq<char>>) -> bool {
    path_equal(expand_home_spec(e.workspace@, home), expand_home_spec(ws, home))
}

/// Index of the first entry at or after `from` whose workspace is `ws`.
pub open spec fn first_match(
    allow: Seq<AllowEntry>,
    ws: Seq<char>,
    home: Option<Seq<char>>,
    from: int,
) -> Option<int>
    decreases allow.len() - from,
{
    if from < 0 || from >= allow.len() {
        None
    } else if entry_matches(allow[from], ws, home) {
        Some(from)
    } else {
        first_match(allow, ws, home, from + 1)
    }
}

pub proof fn lemma_first_match(
    allow: Seq<AllowEntry>,
    ws: Seq<char>,
    home: Option<Seq<char>>,
    from: int,
)
    requires
        0 <= from,
    ensures
        first_match(allow, ws, home, from) matches Some(i) ==> from <= i < allow.len()
            && entry_matches(allow[i], ws, home) && forall|j: int|
            from <= j < i ==> !entry_matches(#[trigger] allow[j], ws, home),
        first_match(allow, ws, home, from) is None ==> forall|j: int|
            from <= j < allow.len() ==> !entry_matches(#[trigger] allow[j], ws, home),
    decreases allow.len() - from,
{
    if from < allow.len() && !entry_matches(allow[from], ws, home) {
        lemma_first_match(allow, ws, home, from + 1);
    }
}

/// When entry `i` is the first for `ws`, [`first_match`] finds it.
pub proof fn lemma_first_match_is(
    allow: Seq<AllowEntry>,
    ws: Seq<char>,
    home: Option<Seq<char>>,
    from: int,
    i: int,
)
    requires
        0 <= from <= i < allow.len(),
        entry_matches(allow[i], ws, home),
        forall|j: int| from <= j < i ==> !entry_matches(#[trigger] allow[j], ws, home),
    ensures
        first_match(allow, ws, home, from) == Some(i),
    decreases i - from,
{
    if from < i {
        lemma_first_match_is(allow, ws, home, from + 1, i);
    }
}

/// The allowlisted command prefixes of `ws`: those of the first entry for that workspace.
pub open spec fn allowed_for(
    allow: Seq<AllowEntry>,
    ws: Seq<char>,
    home: Option<Seq<char>>,
) -> Seq<Seq<char>> {
    match first_match(allow, ws, home, 0) {
        Some(i) => allow[i].commands.deep_view(),
        None => Seq::<Seq<char>>::empty(),
    }
}

/// Index of the first entry for `ws`, with a known home directory.
fn find_entry(allow: &Vec<AllowEntry>, ws: &str, home: Option<&str>) -> (r: Option<usize>)
    ensures
        r matches Some(i) ==> first_match(allow@, ws@, opt_view(home), 0) == Some(i as int)
            && i < allow@.len(),
        r is None ==> first_match(allow@, ws@, opt_view(home), 0) is None,
{
    let target = expand_home_with(ws, home);
    let mut i: usize = 0;
    while i < allow.len()
        invariant
            i <= allow@.len(),
            target@ == expand_home_spec(ws@, opt_view(home)),
            first_match(allow@, ws@, opt_view(home), 0) == first_match(
                allow@,
                ws@,
                opt_view(home),
                i as int,
            ),
        decreases allow@.len() - i,
    {
        let expanded = expand_home_with(allow[i].workspace.as_str(), home);
        if path_eq(expanded.as_str(), target.as_str()) {
            return Some(i);
        }
        i = i + 1;
    }
    None
}

/// The view of an optional string slice.
pub open spec fn opt_view(o: Option<&str>) -> Option<Seq<char>> {
    match o {
        Some(s) => Some(s@),
        None => None,
    }
}

impl AgentConfig {
    /// The workspace with `~` expanded to the home directory.
    pub fn workspace_path(&self) -> (r: String)
        ensures
            exists|h: Option<Seq<char>>| r@ == expand_home_spec(self.workspace@, h),
    {
        expand_home(self.workspace.as_str())
    }

    /// The allowlisted command prefixes of workspace `ws`, with a known home directory.
    pub fn allowed_commands_in(&self, ws: &str, home: Option<&str>) -> (r: &[String])
        ensures
            r.deep_view() == allowed_for(self.allow@, ws@, opt_view(home)),
    {
        match find_entry(&self.allow, ws, home) {
            Some(i) => {
                assert(self.allow@[i as int].commands.deep_view() =~= self.allow[i as int].commands@.map_values(|s: String| s@));
                self.allow[i].commands.as_slice()
            },
            None => {
                let empty: &[String] = &[];
                assert(empty.deep_view() =~= Seq::<Seq<char>>::empty());
                empty
            },
        }
    }

    /// The allowlisted command prefixes of workspace `ws`.
    pub fn allowed_commands_for(&self, ws: &str) -> (r: &[String])
        ensures
            exists|h: Option<Seq<char>>| r.deep_view() == allowed_for(self.allow@, ws@, h),
    {
        let home = home_dir();
        match home {
            Some(h) => {
                let r = self.allowed_commands_in(ws, Some(h.as_str()));
                assert(r.deep_view() == allowed_for(self.allow@, ws@, Some(h@)));
                r
            },
            None => {
                let r = self.allowed_commands_in(ws, None);
                assert(r.deep_view() == allowed_for(self.allow@, ws@, None));
                r
            },
        }
    }

    /// Adds `prefix` to the allowlist of `ws`, with a known home directory: to the first
    /// entry for `ws` unless it is there already, or in a new entry at the end.
    pub fn add_allowed_command_in(&mut self, ws: &str, prefix: &str, home: Option<&str>)
        ensures
            add_result(*old(self), *final(self), ws@, prefix@, opt_view(home)),
    {
        let ghost old_allow = self.allow@;
        match find_entry(&self.allow, ws, home) {
            Some(i) => {
                let present = contains_string(&self.allow[i].commands, prefix);
                if !present {
                    let mut e = self.allow.remove(i);
                    let ghost cmds0 = e.commands.deep_view();
                    let p = string_of(&chars_of(prefix));
                    e.commands.push(p);
                    assert(e.commands.deep_view() =~= cmds0.push(prefix@));
                    self.allow.insert(i, e);
                    assert forall|j: int| 0 <= j < old_allow.len() && j != i implies self.allow@[j]
                        == old_allow[j] by {
                        if j < i {
                            assert(self.allow@[j] == old_allow.remove(i as int)[j]);
                        } else {
                            assert(self.allow@[j] == old_allow.remove(i as int)[j - 1]);
                        }
                    }
                }
            },
            None => {
                let mut cmds: Vec<String> = Vec::new();
                let p = string_of(&chars_of(prefix));
                cmds.push(p);
                assert(cmds.deep_view() =~= seq![prefix@]);
                self.allow.push(AllowEntry { workspace: string_of(&chars_of(ws)), commands: cmds });
            },
        }
        proof {
            lemma_added_prefix_is_allowed(old_allow, self.allow@, ws@, prefix@, opt_view(home));
        }
    }

    /// Adds `prefix` to the allowlist of `ws`.
    pub fn add_allowed_command_for(&mut self, ws: &str, prefix: &str)
        ensures
            exists|h: Option<Seq<char>>| add_result(*old(self), *final(self), ws@, prefix@, h),
    {
        let home = home_dir();
        match home {
            Some(h) => {
                self.add_allowed_command_in(ws, prefix, Some(h.as_str()));
            },
            None => {
                self.add_allowed_command_in(ws, prefix, None);
            },
        }
    }
}

/// What adding `prefix` for `ws` does to an agent configuration: only the allowlist
/// changes, as [`add_spec`] says, the prefix is then allowed for `ws`, and nothing changes
/// at all when it already was.
pub open spec fn add_result(
    before: AgentConfig,
    after: AgentConfig,
    ws: Seq<char>,
    prefix: Seq<char>,
    home: Option<Seq<char>>,
) -> bool {
    &&& after.workspace == before.workspace
    &&& after.approval_mode == before.approval_mode
    &&& after.max_turns == before.max_turns
    &&& after.persona == before.persona
    &&& after.skills == before.skills
    &&& add_spec(before.allow@, after.allow@, ws, prefix, home)
    &&& allowed_for(after.allow@, ws, home).contains(prefix)
    &&& allowed_for(before.allow@, ws, home).contains(prefix) ==> after == before
}

/// What adding `prefix` for `ws` does to the list of entries.
pub open spec fn add_spec(
    old_allow: Seq<AllowEntry>,
    new_allow: Seq<AllowEntry>,
    ws: Seq<char>,
    prefix: Seq<char>,
    home: Option<Seq<char>>,
) -> bool {
    match first_match(old_allow, ws, home, 0) {
        Some(i) => {
            let cmds = old_allow[i].commands.deep_view();
            &&& new_allow.len() == old_allow.len()
            &&& forall|j: int| 0 <= j < old_allow.len() && j != i ==> new_allow[j] == old_allow[j]
            &&& new_allow[i].workspace == old_allow[i].workspace
            &&& new_allow[i].commands.deep_view() == if cmds.contains(prefix) {
                cmds
            } else {
                cmds.push(prefix)
            }
        },
        None => {
            &&& new_allow.len() == old_allow.len() + 1
            &&& forall|j: int| 0 <= j < old_allow.len() ==> new_allow[j] == old_allow[j]
            &&& new_allow.last().workspace@ == ws
            &&& new_allow.last().commands.deep_view() == seq![prefix]
        },
    }
}

/// Whether `v` holds a string equal to `s`.
pub fn contains_string(v: &Vec<String>, s: &str) -> (r: bool)
    ensures
        r == v.deep_view().contains(s@),
{
    let mut i: usize = 0;
    let target = string_of(&chars_of(s));
    while i < v.len()
        invariant
            i <= v@.len(),
            target@ == s@,
            forall|j: int| 0 <= j < i ==> v.deep_view()[j] != s@,
        decreases v@.len() - i,
    {
        if v[i] == target {
            assert(v.deep_view()[i as int] == s@);
            return true;
        }
        i = i + 1;
    }
    assert(!v.deep_view().contains(s@));
    false
}

/// Adding a prefix for one workspace leaves the allowlist of every other workspace as it
/// was.
pub proof fn lemma_add_keeps_other_workspaces(
    old_allow: Seq<AllowEntry>,
    new_allow: Seq<AllowEntry>,
    ws: Seq<char>,
    other: Seq<char>,
    prefix: Seq<char>,
    home: Option<Seq<char>>,
)
    requires
        add_spec(old_allow, new_allow, ws, prefix, home),
        !path_equal(expand_home_spec(ws, home), expand_home_spec(other, home)),
    ensures
        allowed_for(new_allow, other, home) == allowed_for(old_allow, other, home),
{
    lemma_first_match(old_allow, ws, home, 0);
    lemma_first_match(old_allow, other, home, 0);
    lemma_first_match(new_allow, other, home, 0);
    match first_match(old_allow, ws, home, 0) {
        Some(i) => {
            assert(!entry_matches(new_allow[i], other, home));
            match first_match(old_allow, other, home, 0) {
                Some(k) => {
                    assert forall|j: int| 0 <= j < k implies !entry_matches(
                        #[trigger] new_allow[j],
                        other,
                        home,
                    ) by {
                        if j != i {
                            assert(new_allow[j] == old_allow[j]);
                        }
                    }
                    assert(new_allow[k] == old_allow[k]);
                    lemma_first_match_is(new_allow, other, home, 0, k);
                },
                None => {
                    if let Some(k) = first_match(new_allow, other, home, 0) {
                        if k != i {
                            assert(new_allow[k] == old_allow[k]);
                        }
                    }
                },
            }
        },
        None => {
            let n = old_allow.len() as int;
            assert(new_allow[n] == new_allow.last());
            assert(!entry_matches(new_allow[n], other, home));
            match first_match(old_allow, other, home, 0) {
                Some(k) => {
                    assert forall|j: int| 0 <= j < k implies !entry_matches(
                        #[trigger] new_allow[j],
                        other,
                        home,
                    ) by {
                        assert(new_allow[j] == old_allow[j]);
                    }
                    assert(new_allow[k] == old_allow[k]);
                    lemma_first_match_is(new_allow, other, home, 0, k);
                },
                None => {
                    if let Some(k) = first_match(new_allow, other, home, 0) {
                        if k < n {
                            assert(new_allow[k] == old_allow[k]);
                        }
                    }
                },
            }
        },
    }
}

/// Adding a prefix puts it on the workspace's allowlist.
pub proof fn lemma_added_prefix_is_allowed(
    a: Seq<AllowEntry>,
    b: Seq<AllowEntry>,
    ws: Seq<char>,
    prefix: Seq<char>,
    home: Option<Seq<char>>,
)
    requires
        add_spec(a, b, ws, prefix, home),
    ensures
        allowed_for(b, ws, home).contains(prefix),
{
    lemma_first_match(a, ws, home, 0);
    let i = match first_match(a, ws, home, 0) {
        Some(i) => i,
        None => a.len() as int,
    };
    if first_match(a, ws, home, 0) is None {
        assert(b[i] == b.last());
        assert(entry_matches(b[i], ws, home));
    }
    assert forall|j: int| 0 <= j < i implies !entry_matches(#[trigger] b[j], ws, home) by {
        assert(b[j] == a[j]);
    }
    lemma_first_match_is(b, ws, home, 0, i);
    if first_match(a, ws, home, 0) is None {
        assert(seq![prefix][0] == prefix);
    } else {
        let c0 = a[i].commands.deep_view();
        if !c0.contains(prefix) {
            assert(c0.push(prefix)[c0.len() as int] == prefix);
        }
    }
}

/// Adding the same prefix for the same workspace twice leaves the configuration as the
/// first addition made it.
pub proof fn lemma_add_twice(
    x: AgentConfig,
    y: AgentConfig,
    z: AgentConfig,
    ws: Seq<char>,
    prefix: Seq<char>,
    home: Option<Seq<char>>,
)
    requires
        add_result(x, y, ws, prefix, home),
        add_result(y, z, ws, prefix, home),
    ensures
        z == y,
{
}

} // verus!
