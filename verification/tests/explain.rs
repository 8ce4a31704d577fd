use pg_ripple::datalog::explain::llm_content;
use pg_ripple::datalog::explain::{
    chat_completions_url, explanation_prompt, explanation_system_prompt, markdown_explanation, mock_narrative,
    render_proof_tree_text, ProofNode,
};

fn node(t: &str, triple: Option<(&str, &str, &str)>, derivations: Vec<(String, Vec<ProofNode>)>, cycle: bool) -> ProofNode {
    ProofNode {
        node_type: t.to_string(),
        triple: triple.map(|(s, p, o)| (s.to_string(), p.to_string(), o.to_string())),
        derivations,
        cycle,
    }
}

#[test]
fn renders_nested_derivations() {
    let base1 = node("base", Some(("<a>", "<p>", "<b>")), vec![], false);
    let base2 = node("base", None, vec![], false);
    let cyc = node("", None, vec![], true);
    let deep = node("", None, vec![], false);
    let root = node(
        "inferred",
        Some(("<a>", "<q>", "<b>")),
        vec![("r1".to_string(), vec![base1, base2]), ("r2".to_string(), vec![cyc, deep])],
        false,
    );
    let text = render_proof_tree_text(&root, "text");
    assert_eq!(
        text,
        "[DERIVED] <a>  <q>  <b>\n  via rule: r1\n    [BASE FACT] <a>  <p>  <b>\n    [BASE FACT]\n  via rule: r2\n    [CYCLE DETECTED]\n    [MAX DEPTH REACHED]\n"
    );
    let md = render_proof_tree_text(&node("base", None, vec![], false), "markdown");
    assert_eq!(md, "## Proof Tree\n\n[BASE FACT]\n");
}

#[test]
fn narratives() {
    assert_eq!(
        mock_narrative("<a>", "<p>", "<b>", "r1", "text"),
        "The fact that <a> has <p> <b> was derived by rule: r1."
    );
    assert_eq!(
        mock_narrative("<a>", "<p>", "<b>", "r1", "markdown"),
        "## Explanation\n\nThe fact that <a> has <p> <b> was derived by rule: r1.\n\n### Rule\n\n```\nr1\n```"
    );
    assert_eq!(markdown_explanation("n", ""), "## Explanation\n\nn\n\n### Rule\n\n```\n\n```");
}

#[test]
fn llm_request_parts() {
    assert_eq!(chat_completions_url("https://api.example.com/v1//"), "https://api.example.com/v1/chat/completions");
    assert_eq!(chat_completions_url("http://h"), "http://h/chat/completions");
    assert!(explanation_prompt("{}").ends_with("Proof tree:\n{}"));
    assert!(explanation_system_prompt().starts_with("You are explaining why a knowledge graph derived a fact."));
}

#[test]
fn llm_content_reads_the_first_choice() {
    let raw = r#"{"choices": [{"message": {"content": "  It follows from r1.\n"}}]}"#;
    assert_eq!(llm_content(raw), Ok("It follows from r1.".to_string()));
    assert_eq!(llm_content(r#"{"choices": []}"#), Err("LLM returned empty content".to_string()));
    assert_eq!(llm_content(r#"{"choices": [{"message": {"content": "   "}}]}"#), Err("LLM returned empty content".to_string()));
    assert!(llm_content("not json").unwrap_err().starts_with("JSON parse error: "));
}
