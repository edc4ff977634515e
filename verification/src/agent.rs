//! Agent definitions: the built-in agents and agents from the configuration.

use vstd::prelude::*;
use crate::config::{CustomAgentConfig, CustomAgentView};
use crate::text::{copy_opt_string, copy_string, copy_strings, str_equal};

verus! {

/// An agent: its name, what it does, its system prompt and tools.
#[derive(Debug)]
pub struct Agent {
    pub name: String,
    pub description: String,
    pub system_prompt: String,
    pub tools: Vec<String>,
    pub max_iterations: Option<u32>,
}

/// The model of an [`Agent`].
pub struct AgentView {
    pub name: Seq<char>,
    pub description: Seq<char>,
    pub system_prompt: Seq<char>,
    pub tools: Seq<Seq<char>>,
    pub max_iterations: Option<u32>,
}

impl View for Agent {
    type V = AgentView;

    open spec fn view(&self) -> AgentView {
        AgentView {
            name: self.name@,
            description: self.description@,
            system_prompt: self.system_prompt@,
            tools: self.tools.deep_view(),
            max_iterations: self.max_iterations,
        }
    }
}

impl DeepView for Agent {
    type V = AgentView;

    open spec fn deep_view(&self) -> AgentView {
        self@
    }
}

/// Why an agent could not be loaded.
#[derive(Debug)]
pub enum AgentError {
    /// No built-in agent has this name.
    UnknownAgent(String),
}

impl AgentError {
    /// The message of this error.
    pub fn message(&self) -> (m: String)
        ensures
            match self {
                AgentError::UnknownAgent(n) => m@ == "Unknown agent: "@ + n@,
            },
    {
        match self {
            AgentError::UnknownAgent(n) => {
                let mut m = String::from_str("Unknown agent: ");
                m.append(n.as_str());
                m
            },
        }
    }
}

/// The names of the built-in agents, in order.
pub open spec fn builtin_names() -> Seq<Seq<char>> {
    seq!["explain"@, "test"@, "audit"@, "refactor"@]
}

/// The built-in agent called `name`, if any.
pub open spec fn builtin_agent(name: Seq<char>) -> Option<AgentView> {
    if name == "explain"@ {
        Some(
            AgentView {
                name: "Explain"@,
                description: "Explains code in detail"@,
                system_prompt: "You are a senior software engineer. Explain the following code clearly and concisely."@,
                tools: seq!["read_file"@, "grep"@],
                max_iterations: Some(10),
            },
        )
    } else if name == "test"@ {
        Some(
            AgentView {
                name: "Test Generator"@,
                description: "Generates unit tests"@,
                system_prompt: "Generate comprehensive unit tests for the provided code using best practices."@,
                tools: seq!["read_file"@, "edit_file"@],
                max_iterations: Some(20),
            },
        )
    } else if name == "audit"@ {
        Some(
            AgentView {
                name: "Security Auditor"@,
                description: "Audits code for vulnerabilities"@,
                system_prompt: "Audit the following code for security vulnerabilities, performance bottlenecks, and style issues."@,
                tools: seq!["read_file"@, "grep"@, "terminal"@],
                max_iterations: Some(15),
            },
        )
    } else if name == "refactor"@ {
        Some(
            AgentView {
                name: "Refactor Expert"@,
                description: "Refactors code for clarity and efficiency"@,
                system_prompt: "Refactor the following code to improve readability, maintainability, and efficiency while preserving its functionality."@,
                tools: seq!["read_file"@, "edit_file"@, "grep"@],
                max_iterations: Some(25),
            },
        )
    } else {
        None
    }
}

/// The agent called `name` made from a configured agent.
pub open spec fn configured_agent(name: Seq<char>, config: CustomAgentView) -> AgentView {
    AgentView {
        name,
        description: config.description,
        system_prompt: config.system_prompt,
        tools: config.tools,
        max_iterations: config.max_iterations,
    }
}

/// The built-in agents, by literal value: `explain`, `test`, `audit` and
/// `refactor`, each with its name, description, prompt, tools and
/// iteration limit; no other name has a built-in agent.
pub proof fn lemma_builtin_table(name: Seq<char>)
    ensures
        builtin_agent("explain"@) == Some(
            AgentView {
                name: "Explain"@,
                description: "Explains code in detail"@,
                system_prompt: "You are a senior software engineer. Explain the following code clearly and concisely."@,
                tools: seq!["read_file"@, "grep"@],
                max_iterations: Some(10u32),
            },
        ),
        builtin_agent("test"@) == Some(
            AgentView {
                name: "Test Generator"@,
                description: "Generates unit tests"@,
                system_prompt: "Generate comprehensive unit tests for the provided code using best practices."@,
                tools: seq!["read_file"@, "edit_file"@],
                max_iterations: Some(20u32),
            },
        ),
        builtin_agent("audit"@) == Some(
            AgentView {
                name: "Security Auditor"@,
                description: "Audits code for vulnerabilities"@,
                system_prompt: "Audit the following code for security vulnerabilities, performance bottlenecks, and style issues."@,
                tools: seq!["read_file"@, "grep"@, "terminal"@],
                max_iterations: Some(15u32),
            },
        ),
        builtin_agent("refactor"@) == Some(
            AgentView {
                name: "Refactor Expert"@,
                description: "Refactors code for clarity and efficiency"@,
                system_prompt: "Refactor the following code to improve readability, maintainability, and efficiency while preserving its functionality."@,
                tools: seq!["read_file"@, "edit_file"@, "grep"@],
                max_iterations: Some(25u32),
            },
        ),
        name != "explain"@ && name != "test"@ && name != "audit"@ && name != "refactor"@
            ==> builtin_agent(name) is None,
{
    reveal_strlit("explain");
    reveal_strlit("test");
    reveal_strlit("audit");
    reveal_strlit("refactor");
    assert("test"@ != "explain"@) by {
        assert("test"@[0] != "explain"@[0]);
    }
    assert("audit"@ != "explain"@) by {
        assert("audit"@[0] != "explain"@[0]);
    }
    assert("audit"@ != "test"@) by {
        assert("audit"@[0] != "test"@[0]);
    }
    assert("refactor"@ != "explain"@) by {
        assert("refactor"@[0] != "explain"@[0]);
    }
    assert("refactor"@ != "test"@) by {
        assert("refactor"@[0] != "test"@[0]);
    }
    assert("refactor"@ != "audit"@) by {
        assert("refactor"@[0] != "audit"@[0]);
    }
}

/// A list of strings from string literals.
fn string_list(items: &[&str]) -> (r: Vec<String>)
    ensures
        r.deep_view() == items@.map_values(|s: &str| s@),
{
    let mut r: Vec<String> = Vec::new();
    let mut i: usize = 0;
    while i < items.len()
        invariant
            i <= items@.len(),
            r.deep_view() == items@.map_values(|s: &str| s@).take(i as int),
        decreases items@.len() - i,
    {
        let s = String::from_str(items[i]);
        let ghost before = r.deep_view();
        r.push(s);
        assert(r.deep_view() =~= before.push(s@));
        i = i + 1;
        assert(r.deep_view() =~= items@.map_values(|s: &str| s@).take(i as int));
    }
    assert(items@.map_values(|s: &str| s@).take(items@.len() as int) =~= items@.map_values(
        |s: &str| s@,
    ));
    r
}

impl Agent {
    /// An agent with the given parts.
    fn make(name: &str, description: &str, system_prompt: &str, tools: &[&str], max_iterations: u32) -> (a: Agent)
        ensures
            a@ == (AgentView {
                name: name@,
                description: description@,
                system_prompt: system_prompt@,
                tools: tools@.map_values(|s: &str| s@),
                max_iterations: Some(max_iterations),
            }),
    {
        Agent {
            name: String::from_str(name),
            description: String::from_str(description),
            system_prompt: String::from_str(system_prompt),
            tools: string_list(tools),
            max_iterations: Some(max_iterations),
        }
    }

    /// The built-in agent called `name`: `explain`, `test`, `audit` or
    /// `refactor`; any other name is an unknown agent.
    pub fn load_builtin(name: &str) -> (r: Result<Agent, AgentError>)
        ensures
            match r {
                Ok(a) => builtin_agent(name@) == Some(a@),
                Err(AgentError::UnknownAgent(n)) => builtin_agent(name@) is None && n@ == name@,
            },
    {
        if str_equal(name, "explain") {
            let a = Agent::make(
                "Explain",
                "Explains code in detail",
                "You are a senior software engineer. Explain the following code clearly and concisely.",
                &["read_file", "grep"],
                10,
            );
            assert(a.tools.deep_view() =~= seq!["read_file"@, "grep"@]);
            Ok(a)
        } else if str_equal(name, "test") {
            let a = Agent::make(
                "Test Generator",
                "Generates unit tests",
                "Generate comprehensive unit tests for the provided code using best practices.",
                &["read_file", "edit_file"],
                20,
            );
            assert(a.tools.deep_view() =~= seq!["read_file"@, "edit_file"@]);
            Ok(a)
        } else if str_equal(name, "audit") {
            let a = Agent::make(
                "Security Auditor",
                "Audits code for vulnerabilities",
                "Audit the following code for security vulnerabilities, performance bottlenecks, and style issues.",
                &["read_file", "grep", "terminal"],
                15,
            );
            assert(a.tools.deep_view() =~= seq!["read_file"@, "grep"@, "terminal"@]);
            Ok(a)
        } else if str_equal(name, "refactor") {
            let a = Agent::make(
                "Refactor Expert",
                "Refactors code for clarity and efficiency",
                "Refactor the following code to improve readability, maintainability, and efficiency while preserving its functionality.",
                &["read_file", "edit_file", "grep"],
                25,
            );
            assert(a.tools.deep_view() =~= seq!["read_file"@, "edit_file"@, "grep"@]);
            Ok(a)
        } else {
            Err(AgentError::UnknownAgent(String::from_str(name)))
        }
    }

    /// The agent called `name` with the parts of a configured agent.
    pub fn from_config(name: &str, config: CustomAgentConfig) -> (a: Agent)
        ensures
            a@ == configured_agent(name@, config@),
    {
        Agent {
            name: String::from_str(name),
            description: config.description,
            system_prompt: config.system_prompt,
            tools: config.tools,
            max_iterations: config.max_iterations,
        }
    }

    /// The agent called `name` with the parts of a configured agent.
    pub fn load_dynamic(name: &str, config: CustomAgentConfig) -> (a: Agent)
        ensures
            a@ == configured_agent(name@, config@),
    {
        Self::from_config(name, config)
    }

    /// All built-in agents, by name.
    pub fn all_builtins() -> (r: Vec<(String, Agent)>)
        ensures
            r.len() == builtin_names().len(),
            forall|i: int|
                0 <= i < r.len() ==> (#[trigger] r.deep_view()[i]).0 == builtin_names()[i]
                    && builtin_agent(builtin_names()[i]) == Some(r.deep_view()[i].1),
    {
        let names: [&str; 4] = ["explain", "test", "audit", "refactor"];
        let mut r: Vec<(String, Agent)> = Vec::new();
        let mut i: usize = 0;
        while i < 4
            invariant
                i <= 4,
                names@.map_values(|s: &str| s@) == builtin_names(),
                r.len() == i,
                forall|k: int|
                    0 <= k < i ==> (#[trigger] r.deep_view()[k]).0 == builtin_names()[k]
                        && builtin_agent(builtin_names()[k]) == Some(r.deep_view()[k].1),
            decreases 4 - i,
        {
            match Self::load_builtin(names[i]) {
                Ok(agent) => {
                    let e = (String::from_str(names[i]), agent);
                    let ghost before = r.deep_view();
                    r.push(e);
                    assert(r.deep_view() =~= before.push(e.deep_view()));
                },
                Err(_) => {
                    assert(builtin_agent(names@[i as int]@) is Some);
                },
            }
            i = i + 1;
        }
        r
    }
}

} // verus!
