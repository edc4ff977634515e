//! The decisions of a slash command of the agent panel: which agent and
//! provider answer, what is sent, and how the streamed answer is collected.

use vstd::prelude::*;
use vstd::utf8::encode_utf8;
use crate::agent::{builtin_agent, configured_agent, Agent, AgentView};
use crate::ai_client::{AiClient, ChatMessage, ChatMessageView};
use crate::config::{agent_config, Config, ProviderView};
use crate::context::{prompt_section, Context};
use crate::text::{copy_string, join};

verus! {

/// The agent that answers when no configured or built-in agent has the
/// command's name.
pub open spec fn generic_agent() -> AgentView {
    AgentView {
        name: "Generic"@,
        description: "Generic AI Assistant"@,
        system_prompt: "You are a helpful AI assistant."@,
        tools: Seq::empty(),
        max_iterations: None,
    }
}

/// The agent for the command `name`: a configured agent first, then a
/// built-in one, then the generic agent.
pub open spec fn selected_agent(config: Seq<(Seq<char>, crate::config::CustomAgentView)>, name: Seq<char>) -> AgentView {
    match agent_config(config, name) {
        Some(c) => configured_agent(name, c),
        None => match builtin_agent(name) {
            Some(a) => a,
            None => generic_agent(),
        },
    }
}

/// The user's prompt: the arguments joined by spaces, then the context.
pub open spec fn user_prompt(args: Seq<Seq<char>>, context: Option<Seq<char>>) -> Seq<char> {
    match context {
        Some(c) => join(args, " "@) + prompt_section(c),
        None => join(args, " "@),
    }
}

/// A configured agent takes precedence over a built-in agent of the same
/// name, and a name that neither knows gets the generic agent.
pub proof fn lemma_agent_precedence(config: Seq<(Seq<char>, crate::config::CustomAgentView)>, name: Seq<char>)
    ensures
        agent_config(config, name) matches Some(c) ==> selected_agent(config, name)
            == configured_agent(name, c),
        agent_config(config, name) is None && builtin_agent(name) is Some ==> selected_agent(
            config,
            name,
        ) == builtin_agent(name)->0,
        agent_config(config, name) is None && builtin_agent(name) is None ==> selected_agent(
            config,
            name,
        ) == generic_agent(),
{
}

/// The errors of a command, by literal value, and the generic agent that
/// answers an unknown command.
pub proof fn lemma_command_texts()
    ensures
        no_provider_error() == "No AI providers configured"@,
        empty_prompt_error() == "Please provide a prompt"@,
        generic_agent() == (AgentView {
            name: "Generic"@,
            description: "Generic AI Assistant"@,
            system_prompt: "You are a helpful AI assistant."@,
            tools: Seq::empty(),
            max_iterations: None,
        }),
        forall|args: Seq<Seq<char>>, c: Seq<char>|
            #[trigger] user_prompt(args, Some(c)) == join(args, " "@) + "\nRelevant Context:\n---\n"@ + c
                + "\n---\n"@,
        forall|args: Seq<Seq<char>>| #[trigger] user_prompt(args, None) == join(args, " "@),
{
    assert forall|args: Seq<Seq<char>>, c: Seq<char>|
        #[trigger] user_prompt(args, Some(c)) == join(args, " "@) + "\nRelevant Context:\n---\n"@ + c
            + "\n---\n"@ by {
        assert(join(args, " "@) + prompt_section(c) =~= join(args, " "@) + "\nRelevant Context:\n---\n"@
            + c + "\n---\n"@);
    }
}

/// Everything a command needs to ask the provider.
#[derive(Debug)]
pub struct CommandPlan {
    pub client: AiClient,
    pub agent: Agent,
    pub provider_name: String,
    pub messages: Vec<ChatMessage>,
}

/// The answer of a command: its text, and the label of its one section,
/// which covers the whole text (`range_end` is its length in bytes).
#[derive(Debug)]
pub struct CommandResponse {
    pub text: String,
    pub label: String,
    pub range_end: usize,
}

/// The error for a configuration without providers.
pub open spec fn no_provider_error() -> Seq<char> {
    "No AI providers configured"@
}

/// The error for an empty prompt.
pub open spec fn empty_prompt_error() -> Seq<char> {
    "Please provide a prompt"@
}

/// The arguments joined by single spaces.
fn join_args(args: &Vec<String>) -> (s: String)
    ensures
        s@ == join(args.deep_view(), " "@),
{
    let ghost parts = args.deep_view();
    let mut s = String::new();
    let mut i: usize = 0;
    while i < args.len()
        invariant
            parts == args.deep_view(),
            i <= parts.len(),
            s@ == join(parts.take(i as int), " "@),
        decreases parts.len() - i,
    {
        proof {
            assert(parts.take(i as int + 1).drop_last() =~= parts.take(i as int));
        }
        if i == 0 {
            assert(s@ =~= Seq::<char>::empty());
            s.append(args[0].as_str());
        } else {
            s.append(" ");
            s.append(args[i].as_str());
        }
        i = i + 1;
    }
    assert(parts.take(parts.len() as int) =~= parts);
    s
}

/// The agent for the command `name`: a configured agent first, then a
/// built-in one, then the generic agent.
pub fn select_agent(config: &Config, name: &str) -> (a: Agent)
    ensures
        a@ == selected_agent(config.custom_agents.deep_view(), name@),
{
    match config.get_agent(name) {
        Some(custom) => Agent::load_dynamic(name, custom),
        None => match Agent::load_builtin(name) {
            Ok(a) => a,
            Err(_) => {
                let a = Agent {
                    name: String::from_str("Generic"),
                    description: String::from_str("Generic AI Assistant"),
                    system_prompt: String::from_str("You are a helpful AI assistant."),
                    tools: Vec::new(),
                    max_iterations: None,
                };
                assert(a.tools.deep_view() =~= Seq::<Seq<char>>::empty());
                a
            },
        },
    }
}

/// Plans the command `name` with the arguments `args`: the first provider
/// answers, with the selected agent's system prompt and the prompt made of
/// the arguments and the context. Fails without providers, or when the
/// arguments make an empty prompt.
pub fn plan_command(config: &Config, name: &str, args: &Vec<String>, context: Option<Context>) -> (r:
    Result<CommandPlan, String>)
    ensures
        config.providers.len() == 0 ==> (r matches Err(e) && e@ == no_provider_error()),
        config.providers.len() > 0 && join(args.deep_view(), " "@).len() == 0 ==> (r matches Err(e)
            && e@ == empty_prompt_error()),
        config.providers.len() > 0 && join(args.deep_view(), " "@).len() > 0 ==> (r matches Ok(p) && {
            let provider: ProviderView = config.providers.deep_view()[0];
            let agent = selected_agent(config.custom_agents.deep_view(), name@);
            &&& p.client.api_key@ == provider.api_key
            &&& p.client.base_url@ == provider.base_url
            &&& p.client.model@ == provider.default_model
            &&& p.provider_name@ == provider.name
            &&& p.agent@ == agent
            &&& p.messages.deep_view() == seq![
                ChatMessageView { role: "system"@, content: agent.system_prompt },
                ChatMessageView {
                    role: "user"@,
                    content: user_prompt(
                        args.deep_view(),
                        match context {
                            Some(c) => Some(c.content@),
                            None => None,
                        },
                    ),
                },
            ]
        }),
{
    if config.providers.len() == 0 {
        return Err(String::from_str("No AI providers configured"));
    }
    let provider = &config.providers[0];
    let client = AiClient::new(
        copy_string(&provider.api_key),
        copy_string(&provider.base_url),
        copy_string(&provider.default_model),
    );
    let agent = select_agent(config, name);
    let mut prompt = join_args(args);
    if prompt.as_str().is_empty() {
        return Err(String::from_str("Please provide a prompt"));
    }
    match &context {
        Some(c) => {
            let section = c.to_prompt();
            prompt.append(section.as_str());
        },
        None => {},
    }
    let mut messages: Vec<ChatMessage> = Vec::new();
    messages.push(
        ChatMessage { role: String::from_str("system"), content: copy_string(&agent.system_prompt) },
    );
    messages.push(ChatMessage { role: String::from_str("user"), content: prompt });
    let plan = CommandPlan { client, agent, provider_name: copy_string(&provider.name), messages };
    assert(plan.messages.deep_view() =~= seq![
        ChatMessageView { role: "system"@, content: plan.agent@.system_prompt },
        ChatMessageView {
            role: "user"@,
            content: user_prompt(
                args.deep_view(),
                match context {
                    Some(c) => Some(c.content@),
                    None => None,
                },
            ),
        },
    ]);
    Ok(plan)
}

/// Adds one chunk of the streamed answer to `output`; a failed chunk ends
/// the command with an error and leaves `output` as it was.
pub fn append_chunk(output: &mut String, chunk: Result<String, String>) -> (r: Result<(), String>)
    ensures
        match chunk {
            Ok(t) => r is Ok && final(output)@ == old(output)@ + t@,
            Err(e) => (r matches Err(m) && m@ == "AI Stream Error: "@ + e@) && final(output)@
                == old(output)@,
        },
{
    match chunk {
        Ok(t) => {
            output.append(t.as_str());
            Ok(())
        },
        Err(e) => {
            let mut m = String::from_str("AI Stream Error: ");
            m.append(e.as_str());
            Err(m)
        },
    }
}

/// The answer of the planned command with the collected text `text`,
/// labelled with the agent's and the provider's names.
pub fn respond(plan: &CommandPlan, text: String) -> (r: CommandResponse)
    ensures
        r.text@ == text@,
        r.label@ == plan.agent.name@ + " Response ("@ + plan.provider_name@ + ")"@,
        r.range_end == encode_utf8(text@).len() as usize,
{
    let mut label = copy_string(&plan.agent.name);
    label.append(" Response (");
    label.append(plan.provider_name.as_str());
    label.append(")");
    let range_end = text.as_str().len();
    CommandResponse { text, label, range_end }
}

} // verus!
