use agent_orchestrator::agent::{Agent, AgentError};
use agent_orchestrator::ai_client::{
    chunk_content, classify_sse_line, fetch_action, line_action, sse_step, AiClient, ChatChoiceChunk,
    ChatDelta, ChatResponseChunk, SseLine, SseStep, StreamAction,
};
use agent_orchestrator::config::{Config, CustomAgentConfig, ProviderConfig};
use agent_orchestrator::context::Context;
use agent_orchestrator::history::{Conversation, UtcTimestamp};
use agent_orchestrator::router::{append_chunk, plan_command, respond, select_agent};

fn custom(description: &str) -> CustomAgentConfig {
    CustomAgentConfig {
        description: description.to_string(),
        system_prompt: "Be terse.".to_string(),
        tools: vec!["grep".to_string()],
        max_iterations: Some(3),
    }
}

#[test]
fn builtin_agents_load() {
    let a = Agent::load_builtin("explain").unwrap();
    assert_eq!(a.name, "Explain");
    assert_eq!(a.description, "Explains code in detail");
    assert_eq!(a.tools, vec!["read_file", "grep"]);
    assert_eq!(a.max_iterations, Some(10));
    let t = Agent::load_builtin("test").unwrap();
    assert_eq!(t.name, "Test Generator");
    assert_eq!(t.max_iterations, Some(20));
    let s = Agent::load_builtin("audit").unwrap();
    assert_eq!(s.name, "Security Auditor");
    assert_eq!(s.tools, vec!["read_file", "grep", "terminal"]);
    assert_eq!(s.max_iterations, Some(15));
    let r = Agent::load_builtin("refactor").unwrap();
    assert_eq!(r.name, "Refactor Expert");
    assert_eq!(r.tools, vec!["read_file", "edit_file", "grep"]);
    assert_eq!(r.max_iterations, Some(25));
}

#[test]
fn unknown_agent_is_an_error() {
    match Agent::load_builtin("Explain") {
        Err(e) => {
            assert!(matches!(&e, AgentError::UnknownAgent(n) if n == "Explain"));
            assert_eq!(e.message(), "Unknown agent: Explain");
        }
        Ok(_) => panic!("names are case sensitive"),
    }
}

#[test]
fn all_builtins_in_order() {
    let all = Agent::all_builtins();
    let names: Vec<&str> = all.iter().map(|(n, _)| n.as_str()).collect();
    assert_eq!(names, vec!["explain", "test", "audit", "refactor"]);
    assert_eq!(all[2].1.name, "Security Auditor");
}

#[test]
fn agents_from_config() {
    let a = Agent::from_config("critic", custom("Critiques"));
    assert_eq!(a.name, "critic");
    assert_eq!(a.description, "Critiques");
    assert_eq!(a.system_prompt, "Be terse.");
    assert_eq!(a.tools, vec!["grep"]);
    assert_eq!(a.max_iterations, Some(3));
    let b = Agent::load_dynamic("critic", custom("Critiques"));
    assert_eq!(b.name, a.name);
    assert_eq!(b.description, a.description);
}

#[test]
fn default_config_is_local_ollama() {
    let c = Config::default_local();
    assert_eq!(c.providers.len(), 1);
    assert_eq!(c.providers[0].name, "ollama");
    assert_eq!(c.providers[0].base_url, "http://localhost:11434/v1");
    assert_eq!(c.providers[0].api_key, "ollama");
    assert_eq!(c.providers[0].default_model, "llama3");
    assert!(c.custom_agents.is_empty());
    assert!(c.list_agents().is_empty());
}

#[test]
fn config_lookup_and_listing() {
    let mut c = Config::default_local();
    c.custom_agents.push(("critic".to_string(), custom("Critiques")));
    c.custom_agents.push(("explain".to_string(), custom("Custom explain")));
    assert_eq!(c.get_agent("critic").unwrap().description, "Critiques");
    assert!(c.get_agent("missing").is_none());
    let listed = c.list_agents();
    assert_eq!(listed.len(), 2);
    assert_eq!(listed[1].0, "explain");
    assert_eq!(listed[1].1.description, "Custom explain");
}

#[test]
fn agent_selection_prefers_configured_agents() {
    let mut c = Config::default_local();
    c.custom_agents.push(("explain".to_string(), custom("Custom explain")));
    assert_eq!(select_agent(&c, "explain").description, "Custom explain");
    assert_eq!(select_agent(&c, "audit").name, "Security Auditor");
    let g = select_agent(&c, "unknown");
    assert_eq!(g.name, "Generic");
    assert_eq!(g.description, "Generic AI Assistant");
    assert_eq!(g.system_prompt, "You are a helpful AI assistant.");
    assert!(g.tools.is_empty());
    assert_eq!(g.max_iterations, None);
}

#[test]
fn plan_command_builds_messages() {
    let c = Config::default_local();
    let args = vec!["why".to_string(), "is".to_string(), "this slow".to_string()];
    let plan = plan_command(&c, "explain", &args, None).unwrap();
    assert_eq!(plan.client.base_url, "http://localhost:11434/v1");
    assert_eq!(plan.client.model, "llama3");
    assert_eq!(plan.client.api_key, "ollama");
    assert_eq!(plan.provider_name, "ollama");
    assert_eq!(plan.agent.name, "Explain");
    assert_eq!(plan.messages.len(), 2);
    assert_eq!(plan.messages[0].role, "system");
    assert_eq!(plan.messages[0].content, plan.agent.system_prompt);
    assert_eq!(plan.messages[1].role, "user");
    assert_eq!(plan.messages[1].content, "why is this slow");

    let ctx = Context { content: "fn f() {}".to_string() };
    let plan = plan_command(&c, "explain", &args, Some(ctx)).unwrap();
    assert_eq!(
        plan.messages[1].content,
        "why is this slow\nRelevant Context:\n---\nfn f() {}\n---\n"
    );
    let r = respond(&plan, "Answer é".to_string());
    assert_eq!(r.text, "Answer é");
    assert_eq!(r.label, "Explain Response (ollama)");
    assert_eq!(r.range_end, "Answer é".len());
}

#[test]
fn plan_command_errors() {
    let mut c = Config::default_local();
    assert_eq!(
        plan_command(&c, "explain", &vec![], None).err().as_deref(),
        Some("Please provide a prompt")
    );
    assert_eq!(
        plan_command(&c, "explain", &vec![String::new()], None).err().as_deref(),
        Some("Please provide a prompt")
    );
    c.providers.clear();
    assert_eq!(
        plan_command(&c, "explain", &vec!["hi".to_string()], None).err().as_deref(),
        Some("No AI providers configured")
    );
}

#[test]
fn chunks_accumulate_until_an_error() {
    let mut out = String::new();
    assert!(append_chunk(&mut out, Ok("Hel".to_string())).is_ok());
    assert!(append_chunk(&mut out, Ok("lo".to_string())).is_ok());
    assert_eq!(out, "Hello");
    assert_eq!(
        append_chunk(&mut out, Err("timeout".to_string())).err().as_deref(),
        Some("AI Stream Error: timeout")
    );
    assert_eq!(out, "Hello");
}

#[test]
fn client_request_parts() {
    let client = AiClient::new("k".to_string(), "https://api.x/v1".to_string(), "m".to_string());
    assert_eq!(client.completions_url(), "https://api.x/v1/chat/completions");
    assert_eq!(client.authorization_header(), "Bearer k");
}

#[test]
fn sse_lines_are_classified() {
    assert!(matches!(classify_sse_line("data: [DONE]\n"), SseLine::Done));
    assert!(matches!(classify_sse_line("data:  {\"a\":1} \r\n"), SseLine::Data(d) if d == "{\"a\":1}"));
    assert!(matches!(classify_sse_line(": keep-alive\n"), SseLine::Ignore));
    assert!(matches!(classify_sse_line("data:x"), SseLine::Ignore));
    assert!(matches!(classify_sse_line("data: "), SseLine::Data(d) if d.is_empty()));
}

#[test]
fn sse_steps_take_one_line_at_a_time() {
    let mut buffer = b"data: one\n\ndata: [DONE]\nrest".to_vec();
    assert!(matches!(sse_step(&mut buffer), SseStep::Line(SseLine::Data(d)) if d == "one"));
    assert!(matches!(sse_step(&mut buffer), SseStep::Line(SseLine::Ignore)));
    assert!(matches!(sse_step(&mut buffer), SseStep::Line(SseLine::Done)));
    assert!(matches!(sse_step(&mut buffer), SseStep::NeedMore));
    assert_eq!(buffer, b"rest".to_vec());
    let mut invalid = vec![b'd', b'a', b't', b'a', b':', b' ', 0xff, b'\n'];
    assert!(matches!(sse_step(&mut invalid), SseStep::Line(SseLine::Data(d)) if d == "\u{fffd}"));
    assert!(invalid.is_empty());
}

#[test]
fn context_prompt_section() {
    let c = Context { content: "abc".to_string() };
    assert_eq!(c.to_prompt(), "\nRelevant Context:\n---\nabc\n---\n");
}

#[test]
fn conversations_keep_messages_id_and_time() {
    let messages = vec![agent_orchestrator::ai_client::ChatMessage {
        role: "user".to_string(),
        content: "hi".to_string(),
    }];
    let id = uuid::Uuid::from_u128(0x1234);
    let stamp = UtcTimestamp { secs: 1_700_000_000, nanos: 5 };
    let a = Conversation::new(messages, id, stamp);
    assert_eq!(a.messages.len(), 1);
    assert_eq!(a.messages[0].content, "hi");
    assert_eq!(a.id, id);
    assert_eq!(a.timestamp, stamp);
    assert!(a.save().is_ok());
}

#[test]
fn provider_config_fields() {
    let p = ProviderConfig {
        name: "n".to_string(),
        base_url: "u".to_string(),
        api_key: "k".to_string(),
        default_model: "m".to_string(),
    };
    let mut c = Config { providers: vec![p], custom_agents: Vec::new() };
    let plan = plan_command(&c, "x", &vec!["q".to_string()], None).unwrap();
    assert_eq!(plan.client.completions_url(), "u/chat/completions");
    assert_eq!(plan.agent.name, "Generic");
    c.providers.clear();
    assert!(c.providers.is_empty());
}

#[test]
fn chunk_content_takes_the_first_choice() {
    let chunk = ChatResponseChunk {
        choices: vec![
            ChatChoiceChunk { delta: ChatDelta { content: Some("Hel".to_string()) } },
            ChatChoiceChunk { delta: ChatDelta { content: Some("other".to_string()) } },
        ],
    };
    assert_eq!(chunk_content(&chunk).as_deref(), Some("Hel"));
    let empty = ChatResponseChunk { choices: vec![] };
    assert_eq!(chunk_content(&empty), None);
    let no_content = ChatResponseChunk {
        choices: vec![
            ChatChoiceChunk { delta: ChatDelta { content: None } },
            ChatChoiceChunk { delta: ChatDelta { content: Some("x".to_string()) } },
        ],
    };
    assert_eq!(chunk_content(&no_content), None);
}

#[test]
fn listed_agents_have_distinct_names() {
    let mut c = Config::default_local();
    c.custom_agents.push(("critic".to_string(), custom("first")));
    c.custom_agents.push(("helper".to_string(), custom("help")));
    c.custom_agents.push(("critic".to_string(), custom("second")));
    let listed = c.list_agents();
    assert_eq!(listed.len(), 2);
    assert_eq!(listed[0].0, "critic");
    assert_eq!(listed[0].1.description, "first");
    assert_eq!(listed[1].0, "helper");
    for (name, agent) in &listed {
        assert_eq!(c.get_agent(name).unwrap().description, agent.description);
    }
}

#[test]
fn stream_actions_for_lines_and_fetches() {
    let with_text = ChatResponseChunk {
        choices: vec![ChatChoiceChunk { delta: ChatDelta { content: Some("hi".to_string()) } }],
    };
    let without_text = ChatResponseChunk { choices: vec![] };
    assert!(matches!(line_action(&SseLine::Done, None), StreamAction::End));
    assert!(matches!(line_action(&SseLine::Ignore, Some(&with_text)), StreamAction::Continue));
    assert!(matches!(
        line_action(&SseLine::Data("{}".to_string()), Some(&with_text)),
        StreamAction::Emit(t) if t == "hi"
    ));
    assert!(matches!(
        line_action(&SseLine::Data("{}".to_string()), Some(&without_text)),
        StreamAction::Continue
    ));
    assert!(matches!(line_action(&SseLine::Data("bad".to_string()), None), StreamAction::Continue));

    let mut buffer = b"ab".to_vec();
    assert!(matches!(fetch_action(&mut buffer, Ok(Some(b"cd".to_vec()))), StreamAction::Continue));
    assert_eq!(buffer, b"abcd".to_vec());
    assert!(matches!(fetch_action(&mut buffer, Ok(None)), StreamAction::End));
    assert!(matches!(
        fetch_action(&mut buffer, Err("reset".to_string())),
        StreamAction::Fail(m) if m == "Stream error: reset"
    ));
    assert_eq!(buffer, b"abcd".to_vec());
}
