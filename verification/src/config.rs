//! The agent panel's configuration: AI providers and custom agents.

use vstd::prelude::*;
use crate::text::{copy_string, copy_strings, str_equal};

verus! {

/// An OpenAI-compatible AI provider.
#[derive(Debug)]
pub struct ProviderConfig {
    pub name: String,
    pub base_url: String,
    pub api_key: String,
    pub default_model: String,
}

/// The model of a [`ProviderConfig`].
pub struct ProviderView {
    pub name: Seq<char>,
    pub base_url: Seq<char>,
    pub api_key: Seq<char>,
    pub default_model: Seq<char>,
}

impl View for ProviderConfig {
    type V = ProviderView;

    open spec fn view(&self) -> ProviderView {
        ProviderView {
            name: self.name@,
            base_url: self.base_url@,
            api_key: self.api_key@,
            default_model: self.default_model@,
        }
    }
}

impl DeepView for ProviderConfig {
    type V = ProviderView;

    open spec fn deep_view(&self) -> ProviderView {
        self@
    }
}

/// An agent that the user configured.
#[derive(Debug)]
pub struct CustomAgentConfig {
    pub description: String,
    pub system_prompt: String,
    pub tools: Vec<String>,
    pub max_iterations: Option<u32>,
}

/// The model of a [`CustomAgentConfig`].
pub struct CustomAgentView {
    pub description: Seq<char>,
    pub system_prompt: Seq<char>,
    pub tools: Seq<Seq<char>>,
    pub max_iterations: Option<u32>,
}

impl View for CustomAgentConfig {
    type V = CustomAgentView;

    open spec fn view(&self) -> CustomAgentView {
        CustomAgentView {
            description: self.description@,
            system_prompt: self.system_prompt@,
            tools: self.tools.deep_view(),
            max_iterations: self.max_iterations,
        }
    }
}

impl DeepView for CustomAgentConfig {
    type V = CustomAgentView;

    open spec fn deep_view(&self) -> CustomAgentView {
        self@
    }
}

impl CustomAgentConfig {
    /// A copy of this configuration.
    pub fn duplicate(&self) -> (r: Self)
        ensures
            r@ == self@,
    {
        CustomAgentConfig {
            description: copy_string(&self.description),
            system_prompt: copy_string(&self.system_prompt),
            tools: copy_strings(&self.tools),
            max_iterations: self.max_iterations,
        }
    }
}

/// The configuration: the providers, and the custom agents by name.
#[derive(Debug)]
pub struct Config {
    pub providers: Vec<ProviderConfig>,
    pub custom_agents: Vec<(String, CustomAgentConfig)>,
}

/// The custom agent configured under `name`: the first entry with that name.
pub open spec fn agent_config(entries: Seq<(Seq<char>, CustomAgentView)>, name: Seq<char>) -> Option<
    CustomAgentView,
>
    decreases entries.len(),
{
    if entries.len() == 0 {
        None
    } else if entries[0].0 == name {
        Some(entries[0].1)
    } else {
        agent_config(entries.drop_first(), name)
    }
}

/// The local default: one Ollama provider and no custom agents.
pub open spec fn local_provider() -> ProviderView {
    ProviderView {
        name: "ollama"@,
        base_url: "http://localhost:11434/v1"@,
        api_key: "ollama"@,
        default_model: "llama3"@,
    }
}

/// The agent found under a name is one of the listed entries with that
/// name, and a name that some entry has is always found.
pub proof fn lemma_get_agent_listed(entries: Seq<(Seq<char>, CustomAgentView)>, name: Seq<char>)
    ensures
        agent_config(entries, name) matches Some(c) ==> exists|i: int|
            0 <= i < entries.len() && #[trigger] entries[i] == (name, c),
        (exists|i: int| 0 <= i < entries.len() && #[trigger] entries[i].0 == name) ==> agent_config(
            entries,
            name,
        ) is Some,
    decreases entries.len(),
{
    if entries.len() > 0 {
        let rest = entries.drop_first();
        lemma_get_agent_listed(rest, name);
        if entries[0].0 != name {
            if let Some(c) = agent_config(entries, name) {
                let i = choose|i: int| 0 <= i < rest.len() && #[trigger] rest[i] == (name, c);
                assert(entries[i + 1] == (name, c));
            }
            if exists|i: int| 0 <= i < entries.len() && #[trigger] entries[i].0 == name {
                let i = choose|i: int| 0 <= i < entries.len() && #[trigger] entries[i].0 == name;
                assert(rest[i - 1].0 == name);
            }
        } else {
            assert(entries[0] == (name, entries[0].1));
        }
    }
}

impl Config {
    /// The local default configuration: the Ollama server on this machine
    /// with the model `llama3`, and no custom agents.
    pub fn default_local() -> (c: Self)
        ensures
            c.providers.deep_view() == seq![local_provider()],
            c.custom_agents.deep_view() == Seq::<(Seq<char>, CustomAgentView)>::empty(),
    {
        let mut providers: Vec<ProviderConfig> = Vec::new();
        providers.push(
            ProviderConfig {
                name: String::from_str("ollama"),
                base_url: String::from_str("http://localhost:11434/v1"),
                api_key: String::from_str("ollama"),
                default_model: String::from_str("llama3"),
            },
        );
        let custom_agents: Vec<(String, CustomAgentConfig)> = Vec::new();
        assert(providers.deep_view() =~= seq![local_provider()]);
        assert(custom_agents.deep_view() =~= Seq::<(Seq<char>, CustomAgentView)>::empty());
        Config { providers, custom_agents }
    }

    /// The custom agent configured under `name`.
    pub fn get_agent(&self, name: &str) -> (r: Option<CustomAgentConfig>)
        ensures
            r.deep_view() == agent_config(self.custom_agents.deep_view(), name@),
    {
        let ghost entries = self.custom_agents.deep_view();
        let mut i: usize = 0;
        assert(entries.skip(0) =~= entries);
        while i < self.custom_agents.len()
            invariant
                entries == self.custom_agents.deep_view(),
                i <= entries.len(),
                agent_config(entries, name@) == agent_config(entries.skip(i as int), name@),
            decreases entries.len() - i,
        {
            assert(entries.skip(i as int).drop_first() =~= entries.skip(i as int + 1));
            if str_equal(self.custom_agents[i].0.as_str(), name) {
                return Some(self.custom_agents[i].1.duplicate());
            }
            i = i + 1;
        }
        None
    }

    /// All custom agents with their names, each name once: where a name is
    /// configured more than once, its first entry, the one `get_agent` finds.
    pub fn list_agents(&self) -> (r: Vec<(String, CustomAgentConfig)>)
        ensures
            r.deep_view() == first_entries(self.custom_agents.deep_view()),
            forall|a: int, b: int|
                0 <= a < b < r.len() ==> (#[trigger] r.deep_view()[a]).0 != (
                #[trigger] r.deep_view()[b]).0,
            forall|a: int|
                0 <= a < r.len() ==> agent_config(self.custom_agents.deep_view(), (
                #[trigger] r.deep_view()[a]).0) == Some(r.deep_view()[a].1),
            forall|k: Seq<char>|
                #[trigger] names_of(self.custom_agents.deep_view()).contains(k) ==> names_of(
                    r.deep_view(),
                ).contains(k),
    {
        let ghost entries = self.custom_agents.deep_view();
        let mut r: Vec<(String, CustomAgentConfig)> = Vec::new();
        let mut i: usize = 0;
        while i < self.custom_agents.len()
            invariant
                entries == self.custom_agents.deep_view(),
                i <= entries.len(),
                r.deep_view() == first_entries(entries.take(i as int)),
            decreases entries.len() - i,
        {
            let mut seen = false;
            let mut j: usize = 0;
            while j < i
                invariant
                    entries == self.custom_agents.deep_view(),
                    j <= i < entries.len(),
                    seen == exists|k: int| 0 <= k < j && entries[k].0 == entries[i as int].0,
                decreases i - j,
            {
                assert(entries[j as int].0 == self.custom_agents@[j as int].0@);
                assert(entries[i as int].0 == self.custom_agents@[i as int].0@);
                if str_equal(self.custom_agents[j].0.as_str(), self.custom_agents[i].0.as_str()) {
                    seen = true;
                }
                j = j + 1;
            }
            proof {
                let t = entries.take(i as int + 1);
                assert(t.drop_last() =~= entries.take(i as int));
                assert(seen == names_of(t.drop_last()).contains(t.last().0)) by {
                    if seen {
                        let k = choose|k: int| 0 <= k < i && entries[k].0 == entries[i as int].0;
                        assert(names_of(t.drop_last())[k] == t.last().0);
                    }
                    if names_of(t.drop_last()).contains(t.last().0) {
                        let k = choose|k: int|
                            0 <= k < names_of(t.drop_last()).len() && names_of(t.drop_last())[k]
                                == t.last().0;
                        assert(entries[k].0 == entries[i as int].0);
                    }
                }
            }
            if !seen {
                let e = (copy_string(&self.custom_agents[i].0), self.custom_agents[i].1.duplicate());
                let ghost before = r.deep_view();
                r.push(e);
                assert(r.deep_view() =~= before.push(e.deep_view()));
            }
            i = i + 1;
        }
        assert(entries.take(entries.len() as int) =~= entries);
        proof {
            lemma_first_entries(entries);
        }
        r
    }
}

/// The names of the entries, in order.
pub open spec fn names_of(entries: Seq<(Seq<char>, CustomAgentView)>) -> Seq<Seq<char>> {
    entries.map_values(|e: (Seq<char>, CustomAgentView)| e.0)
}

/// The first entry of each name, in order.
pub open spec fn first_entries(entries: Seq<(Seq<char>, CustomAgentView)>) -> Seq<
    (Seq<char>, CustomAgentView),
>
    decreases entries.len(),
{
    if entries.len() == 0 {
        Seq::empty()
    } else {
        let prev = first_entries(entries.drop_last());
        if names_of(entries.drop_last()).contains(entries.last().0) {
            prev
        } else {
            prev.push(entries.last())
        }
    }
}

proof fn lemma_agent_config_push(e: Seq<(Seq<char>, CustomAgentView)>, x: (Seq<char>, CustomAgentView), k: Seq<char>)
    ensures
        agent_config(e.push(x), k) == if agent_config(e, k) is Some {
            agent_config(e, k)
        } else if x.0 == k {
            Some(x.1)
        } else {
            None
        },
    decreases e.len(),
{
    reveal_with_fuel(agent_config, 2);
    if e.len() > 0 {
        assert(e.push(x)[0] == e[0]);
        assert(e.push(x).drop_first() =~= e.drop_first().push(x));
        lemma_agent_config_push(e.drop_first(), x, k);
    } else {
        assert(e.push(x)[0] == x);
        assert(e.push(x).drop_first() =~= Seq::<(Seq<char>, CustomAgentView)>::empty());
    }
}

proof fn lemma_agent_config_some(e: Seq<(Seq<char>, CustomAgentView)>, k: Seq<char>)
    ensures
        agent_config(e, k) is Some <==> names_of(e).contains(k),
    decreases e.len(),
{
    if e.len() > 0 {
        let rest = e.drop_first();
        lemma_agent_config_some(rest, k);
        if e[0].0 == k {
            assert(names_of(e)[0] == k);
        }
        if names_of(rest).contains(k) {
            let j = choose|j: int| 0 <= j < names_of(rest).len() && names_of(rest)[j] == k;
            assert(names_of(e)[j + 1] == k);
        }
        if names_of(e).contains(k) {
            let j = choose|j: int| 0 <= j < names_of(e).len() && names_of(e)[j] == k;
            if j > 0 {
                assert(names_of(rest)[j - 1] == k);
            }
        }
    }
}

/// Each name is listed once, with the configuration that `get_agent` finds
/// for it, and every configured name is listed.
pub proof fn lemma_first_entries(entries: Seq<(Seq<char>, CustomAgentView)>)
    ensures
        forall|a: int, b: int|
            0 <= a < b < first_entries(entries).len() ==> (
            #[trigger] first_entries(entries)[a]).0 != (#[trigger] first_entries(entries)[b]).0,
        forall|a: int|
            0 <= a < first_entries(entries).len() ==> names_of(entries).contains(
                (#[trigger] first_entries(entries)[a]).0,
            ),
        forall|a: int|
            0 <= a < first_entries(entries).len() ==> agent_config(
                entries,
                (#[trigger] first_entries(entries)[a]).0,
            ) == Some(first_entries(entries)[a].1),
        forall|k: Seq<char>|
            #[trigger] names_of(entries).contains(k) ==> names_of(first_entries(entries)).contains(k),
    decreases entries.len(),
{
    if entries.len() > 0 {
        let e = entries.drop_last();
        let x = entries.last();
        lemma_first_entries(e);
        let fp = first_entries(e);
        let fe = first_entries(entries);
        assert(entries =~= e.push(x));
        let seen = names_of(e).contains(x.0);
        assert forall|k: Seq<char>| names_of(e).contains(k) implies #[trigger] names_of(entries).contains(k) by {
            let j = choose|j: int| 0 <= j < names_of(e).len() && names_of(e)[j] == k;
            assert(names_of(entries)[j] == k);
        }
        assert(names_of(entries)[e.len() as int] == x.0);
        assert forall|a: int| 0 <= a < fp.len() implies agent_config(entries, (#[trigger] fp[a]).0)
            == Some(fp[a].1) by {
            lemma_agent_config_push(e, x, fp[a].0);
        }
        if !seen {
            assert(fe =~= fp.push(x));
            lemma_agent_config_some(e, x.0);
            lemma_agent_config_push(e, x, x.0);
            assert forall|a: int, b: int| 0 <= a < b < fe.len() implies (#[trigger] fe[a]).0
                != (#[trigger] fe[b]).0 by {
                if b == fp.len() {
                    assert(fe[a] == fp[a]);
                    assert(names_of(e).contains(fp[a].0));
                } else {
                    assert(fe[a] == fp[a] && fe[b] == fp[b]);
                }
            }
            assert forall|a: int| 0 <= a < fe.len() implies agent_config(entries, (#[trigger] fe[a]).0)
                == Some(fe[a].1) by {
                if a < fp.len() {
                    assert(fe[a] == fp[a]);
                }
            }
            assert forall|a: int| 0 <= a < fe.len() implies names_of(entries).contains(
                (#[trigger] fe[a]).0,
            ) by {
                if a < fp.len() {
                    assert(fe[a] == fp[a]);
                    assert(names_of(e).contains(fp[a].0));
                }
            }
            assert forall|k: Seq<char>| #[trigger] names_of(entries).contains(k) implies names_of(
                fe,
            ).contains(k) by {
                let j = choose|j: int| 0 <= j < names_of(entries).len() && names_of(entries)[j] == k;
                if j == e.len() {
                    assert(names_of(fe)[fp.len() as int] == k);
                } else {
                    assert(names_of(e)[j] == k);
                    assert(names_of(e).contains(k));
                    assert(names_of(fp).contains(k));
                    let m = choose|m: int| 0 <= m < names_of(fp).len() && names_of(fp)[m] == k;
                    assert(names_of(fe)[m] == k);
                }
            }
        } else {
            assert(fe == fp);
            assert forall|k: Seq<char>| #[trigger] names_of(entries).contains(k) implies names_of(
                fe,
            ).contains(k) by {
                let j = choose|j: int| 0 <= j < names_of(entries).len() && names_of(entries)[j] == k;
                if j == e.len() {
                    assert(names_of(e).contains(k));
                } else {
                    assert(names_of(e)[j] == k);
                    assert(names_of(e).contains(k));
                }
            }
        }
    }
}

} // verus!
