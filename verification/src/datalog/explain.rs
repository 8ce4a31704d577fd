//! Proof trees of inferred triples, written as indented text.
//!
//! A proof tree has a node per triple: a base fact, a derived triple with the
//! rules that derived it and, under each rule, the trees of its antecedents,
//! or a node where the walk stopped (a cycle, or the depth limit).

use vstd::prelude::*;
use crate::text::str_eq;

verus! {

/// One node of a proof tree.
#[derive(Debug)]
pub struct ProofNode {
    /// `base`, `inferred`, or another word for a node where the walk stopped.
    pub node_type: String,
    /// The triple's subject, predicate and object labels, where known.
    pub triple: Option<(String, String, String)>,
    /// For a derived triple: each deriving rule with its antecedents' trees.
    pub derivations: Vec<(String, Vec<ProofNode>)>,
    /// For a node where the walk stopped: whether it closed a cycle.
    pub cycle: bool,
}

/// ` s  p  o` for a known triple, nothing otherwise.
pub open spec fn triple_part(t: Option<(String, String, String)>) -> Seq<char> {
    match t {
        Some(x) => " "@ + x.0@ + "  "@ + x.1@ + "  "@ + x.2@,
        None => Seq::empty(),
    }
}

/// The text of a node indented by `ind`: its label line and, for a derived
/// triple, a `via rule:` line per rule followed by the antecedents' trees
/// indented four more spaces.
pub open spec fn node_text(n: ProofNode, ind: Seq<char>) -> Seq<char>
    decreases n, 0int,
{
    if n.node_type@ == "base"@ {
        ind + "[BASE FACT]"@ + triple_part(n.triple) + "\n"@
    } else if n.node_type@ == "inferred"@ {
        proof {
            assert(decreases_to!(n => n.derivations));
            assert(decreases_to!(n.derivations => n.derivations@));
        }
        ind + "[DERIVED]"@ + triple_part(n.triple) + "\n"@ + derivations_text(n.derivations@, ind)
    } else if n.cycle {
        ind + "[CYCLE DETECTED]"@ + "\n"@
    } else {
        ind + "[MAX DEPTH REACHED]"@ + "\n"@
    }
}

/// The `via rule:` lines of `ds`, each followed by its antecedents' trees.
pub open spec fn derivations_text(ds: Seq<(String, Vec<ProofNode>)>, ind: Seq<char>) -> Seq<char>
    decreases ds, 0int,
{
    if ds.len() == 0 {
        Seq::empty()
    } else {
        let k = ds.len() - 1;
        proof {
            assert(decreases_to!(ds => ds.subrange(0, k)));
            assert(decreases_to!(ds => ds[k]));
            assert(decreases_to!(ds[k] => ds[k].1));
            assert(decreases_to!(ds[k].1 => ds[k].1@));
        }
        derivations_text(ds.subrange(0, k), ind) + ind + "  via rule: "@ + ds[k].0@ + "\n"@ + nodes_text(
            ds[k].1@,
            ind + "    "@,
        )
    }
}

/// The trees of `ns`, one after the other.
pub open spec fn nodes_text(ns: Seq<ProofNode>, ind: Seq<char>) -> Seq<char>
    decreases ns, 0int,
{
    if ns.len() == 0 {
        Seq::empty()
    } else {
        let k = ns.len() - 1;
        proof {
            assert(decreases_to!(ns => ns.subrange(0, k)));
            assert(decreases_to!(ns => ns[k]));
        }
        nodes_text(ns.subrange(0, k), ind) + node_text(ns[k], ind)
    }
}

/// The whole text: a `## Proof Tree` heading for the `markdown` format, then
/// the root's tree.
pub open spec fn proof_tree_text(tree: ProofNode, format: Seq<char>) -> Seq<char> {
    (if format == "markdown"@ {
        "## Proof Tree\n\n"@
    } else {
        Seq::empty()
    }) + node_text(tree, Seq::empty())
}

fn push_triple_part(buf: &mut String, t: &Option<(String, String, String)>)
    ensures
        final(buf)@ == old(buf)@ + triple_part(*t),
{
    match t {
        Some(x) => {
            buf.append(" ");
            buf.append(x.0.as_str());
            buf.append("  ");
            buf.append(x.1.as_str());
            buf.append("  ");
            buf.append(x.2.as_str());
        },
        None => {
            assert(old(buf)@ + Seq::<char>::empty() =~= old(buf)@);
        },
    }
}

fn render_node(n: &ProofNode, ind: &String, buf: &mut String)
    ensures
        final(buf)@ == old(buf)@ + node_text(*n, ind@),
    decreases n, 0int,
{
    if str_eq(n.node_type.as_str(), "base") {
        buf.append(ind.as_str());
        buf.append("[BASE FACT]");
        push_triple_part(buf, &n.triple);
        buf.append("\n");
    } else if str_eq(n.node_type.as_str(), "inferred") {
        buf.append(ind.as_str());
        buf.append("[DERIVED]");
        push_triple_part(buf, &n.triple);
        buf.append("\n");
        proof {
            assert(decreases_to!(n => n.derivations));
            assert(decreases_to!(n.derivations => n.derivations@));
        }
        render_derivations(&n.derivations, ind, buf);
    } else if n.cycle {
        buf.append(ind.as_str());
        buf.append("[CYCLE DETECTED]");
        buf.append("\n");
    } else {
        buf.append(ind.as_str());
        buf.append("[MAX DEPTH REACHED]");
        buf.append("\n");
    }
}

fn render_derivations(ds: &Vec<(String, Vec<ProofNode>)>, ind: &String, buf: &mut String)
    ensures
        final(buf)@ == old(buf)@ + derivations_text(ds@, ind@),
    decreases ds@, 1int,
{
    let ghost start = buf@;
    let mut deeper = ind.clone();
    deeper.append("    ");
    let mut k: usize = 0;
    assert(ds@.subrange(0, 0) =~= Seq::<(String, Vec<ProofNode>)>::empty());
    while k < ds.len()
        invariant
            k <= ds@.len(),
            deeper@ == ind@ + "    "@,
            buf@ == start + derivations_text(ds@.subrange(0, k as int), ind@),
        decreases ds@.len() - k,
    {
        buf.append(ind.as_str());
        buf.append("  via rule: ");
        buf.append(ds[k].0.as_str());
        buf.append("\n");
        proof {
            assert(decreases_to!(ds@ => ds@[k as int]));
            assert(decreases_to!(ds@[k as int] => ds@[k as int].1));
            assert(decreases_to!(ds@[k as int].1 => ds@[k as int].1@));
        }
        render_nodes(&ds[k].1, &deeper, buf);
        proof {
            let sub = ds@.subrange(0, k as int + 1);
            assert(sub.subrange(0, k as int) =~= ds@.subrange(0, k as int));
            assert(sub[k as int] == ds@[k as int]);
        }
        k = k + 1;
    }
    assert(ds@.subrange(0, ds@.len() as int) =~= ds@);
}

fn render_nodes(ns: &Vec<ProofNode>, ind: &String, buf: &mut String)
    ensures
        final(buf)@ == old(buf)@ + nodes_text(ns@, ind@),
    decreases ns@, 1int,
{
    let ghost start = buf@;
    let mut k: usize = 0;
    assert(ns@.subrange(0, 0) =~= Seq::<ProofNode>::empty());
    while k < ns.len()
        invariant
            k <= ns@.len(),
            buf@ == start + nodes_text(ns@.subrange(0, k as int), ind@),
        decreases ns@.len() - k,
    {
        proof {
            assert(decreases_to!(ns@ => ns@[k as int]));
        }
        render_node(&ns[k], ind, buf);
        proof {
            let sub = ns@.subrange(0, k as int + 1);
            assert(sub.subrange(0, k as int) =~= ns@.subrange(0, k as int));
            assert(sub[k as int] == ns@[k as int]);
        }
        k = k + 1;
    }
    assert(ns@.subrange(0, ns@.len() as int) =~= ns@);
}

/// Writes a proof tree as indented text: the fallback explanation when no
/// language model is reachable.
pub fn render_proof_tree_text(tree: &ProofNode, format: &str) -> (r: String)
    ensures
        r@ == proof_tree_text(*tree, format@),
{
    let mut buf = String::new();
    if str_eq(format, "markdown") {
        buf.append("## Proof Tree\n\n");
    }
    let ind = String::new();
    render_node(tree, &ind, &mut buf);
    assert(ind@ =~= Seq::<char>::empty());
    buf
}

// ─── Narratives ──────────────────────────────────────────────────────────────

/// A narrative in the `markdown` format: an `Explanation` heading, the
/// narrative, then the rule in a `Rule` section as a code block.
pub open spec fn markdown_explanation_spec(narrative: Seq<char>, rule: Seq<char>) -> Seq<char> {
    "## Explanation\n\n"@ + narrative + "\n\n### Rule\n\n```\n"@ + rule + "\n```"@
}

/// Wraps a narrative for the `markdown` format.
pub fn markdown_explanation(narrative: &str, rule: &str) -> (r: String)
    ensures
        r@ == markdown_explanation_spec(narrative@, rule@),
{
    let mut out = String::new();
    out.append("## Explanation\n\n");
    out.append(narrative);
    out.append("\n\n### Rule\n\n```\n");
    out.append(rule);
    out.append("\n```");
    out
}

/// The canned narrative of the `mock` endpoint.
pub open spec fn mock_narrative_spec(
    subject: Seq<char>,
    predicate: Seq<char>,
    object: Seq<char>,
    rule: Seq<char>,
    format: Seq<char>,
) -> Seq<char> {
    let n = "The fact that "@ + subject + " has "@ + predicate + " "@ + object + " was derived by rule: "@ + rule
        + "."@;
    if format == "markdown"@ {
        markdown_explanation_spec(n, rule)
    } else {
        n
    }
}

/// The narrative that the `mock` endpoint stands for, used in testing:
/// one sentence naming the triple and the first deriving rule.
pub fn mock_narrative(subject: &str, predicate: &str, object: &str, rule: &str, format: &str) -> (r: String)
    ensures
        r@ == mock_narrative_spec(subject@, predicate@, object@, rule@, format@),
{
    let mut n = String::new();
    n.append("The fact that ");
    n.append(subject);
    n.append(" has ");
    n.append(predicate);
    n.append(" ");
    n.append(object);
    n.append(" was derived by rule: ");
    n.append(rule);
    n.append(".");
    if str_eq(format, "markdown") {
        markdown_explanation(n.as_str(), rule)
    } else {
        n
    }
}

/// `s` without its trailing `/` characters.
pub open spec fn trim_slashes(s: Seq<char>) -> Seq<char>
    decreases s.len(),
{
    if s.len() > 0 && s.last() == '/' {
        trim_slashes(s.drop_last())
    } else {
        s
    }
}

/// The chat-completions URL of an LLM endpoint.
pub fn chat_completions_url(endpoint: &str) -> (r: String)
    ensures
        r@ == trim_slashes(endpoint@) + "/chat/completions"@,
{
    let v = crate::text::str_chars(endpoint);
    let mut n: usize = v.len();
    assert(v@.subrange(0, n as int) =~= endpoint@);
    while n > 0 && v[n - 1] == '/'
        invariant
            n <= v@.len(),
            trim_slashes(v@.subrange(0, n as int)) == trim_slashes(endpoint@),
        decreases n,
    {
        assert(v@.subrange(0, n as int).drop_last() =~= v@.subrange(0, n - 1));
        n = n - 1;
    }
    let mut out = crate::text::string_from_chars(&crate::text::sub_chars(&v, 0, n));
    out.append("/chat/completions");
    out
}

/// The user prompt sent with a proof tree's JSON text.
pub open spec fn explanation_prompt_spec(tree_json: Seq<char>) -> Seq<char> {
    "Explain the following Datalog proof tree in plain English for a domain expert (not a programmer). The audience does not know about Datalog or SPARQL. Use full sentences. Be concise (2-4 sentences).\n\nProof tree:\n"@
        + tree_json
}

/// The user prompt that asks for a narrative of a proof tree.
pub fn explanation_prompt(tree_json: &str) -> (r: String)
    ensures
        r@ == explanation_prompt_spec(tree_json@),
{
    let mut out = String::new();
    out.append(
        "Explain the following Datalog proof tree in plain English for a domain expert (not a programmer). The audience does not know about Datalog or SPARQL. Use full sentences. Be concise (2-4 sentences).\n\nProof tree:\n",
    );
    out.append(tree_json);
    out
}

/// The system prompt of an explanation request.
pub fn explanation_system_prompt() -> (r: String)
    ensures
        r@ == "You are explaining why a knowledge graph derived a fact. Given a proof tree (JSON), write a clear, concise explanation in plain English. Audience: domain expert, not a programmer. Do not mention JSON, Datalog, or SPARQL."@,
{
    let mut out = String::new();
    out.append(
        "You are explaining why a knowledge graph derived a fact. Given a proof tree (JSON), write a clear, concise explanation in plain English. Audience: domain expert, not a programmer. Do not mention JSON, Datalog, or SPARQL.",
    );
    out
}

// ─── Replies of the language model ───────────────────────────────────────────

/// What `serde_json` reads from a chat-completions reply body: the string at
/// `/choices/0/message/content` (`None` when it is missing or not a string),
/// or the parse error's text when the body is not JSON.
pub uninterp spec fn llm_reply_of(raw: Seq<char>) -> Result<Option<Seq<char>>, Seq<char>>;

/// Parses the reply body with `serde_json::from_str` and reads
/// `/choices/0/message/content` with `Value::pointer` and `as_str`; the
/// contract names that result.
#[verifier::external_body]
fn llm_reply(raw: &str) -> (r: Result<Option<String>, String>)
    ensures
        match r {
            Ok(Some(c)) => llm_reply_of(raw@) == Ok::<Option<Seq<char>>, Seq<char>>(Some(c@)),
            Ok(None) => llm_reply_of(raw@) == Ok::<Option<Seq<char>>, Seq<char>>(None),
            Err(e) => llm_reply_of(raw@) == Err::<Option<Seq<char>>, Seq<char>>(e@),
        },
{
    match serde_json::from_str::<serde_json::Value>(raw) {
        Ok(v) => Ok(v.pointer("/choices/0/message/content").and_then(|c| c.as_str()).map(|c| c.to_string())),
        Err(e) => Err(e.to_string()),
    }
}

/// The narrative that a reply gives: its content trimmed, an error when the
/// content is missing or blank, or the parse error.
pub open spec fn llm_content_spec(reply: Result<Option<Seq<char>>, Seq<char>>) -> Result<Seq<char>, Seq<char>> {
    match reply {
        Err(e) => Err("JSON parse error: "@ + e),
        Ok(Some(c)) => if crate::text::trim(c).len() > 0 {
            Ok(crate::text::trim(c))
        } else {
            Err("LLM returned empty content"@)
        },
        Ok(None) => Err("LLM returned empty content"@),
    }
}

/// The narrative of a reply as read by `serde_json`.
pub fn llm_content_from_reply(reply: Result<Option<String>, String>) -> (r: Result<String, String>)
    ensures
        match r {
            Ok(c) => llm_content_spec(match reply {
                Ok(Some(c)) => Ok(Some(c@)),
                Ok(None) => Ok(None),
                Err(e) => Err(e@),
            }) == Ok::<Seq<char>, Seq<char>>(c@),
            Err(e) => llm_content_spec(match reply {
                Ok(Some(c)) => Ok(Some(c@)),
                Ok(None) => Ok(None),
                Err(e) => Err(e@),
            }) == Err::<Seq<char>, Seq<char>>(e@),
        },
{
    match reply {
        Err(e) => {
            let mut m = String::from_str("JSON parse error: ");
            m.append(e.as_str());
            Err(m)
        },
        Ok(Some(c)) => {
            let v = crate::text::str_chars(c.as_str());
            let t = crate::datalog::parser::trimmed(&v);
            if t.len() > 0 {
                Ok(crate::text::string_from_chars(&t))
            } else {
                Err(String::from_str("LLM returned empty content"))
            }
        },
        Ok(None) => Err(String::from_str("LLM returned empty content")),
    }
}

/// The narrative in a chat-completions reply body `raw`.
pub fn llm_content(raw: &str) -> (r: Result<String, String>)
    ensures
        match r {
            Ok(c) => llm_content_spec(llm_reply_of(raw@)) == Ok::<Seq<char>, Seq<char>>(c@),
            Err(e) => llm_content_spec(llm_reply_of(raw@)) == Err::<Seq<char>, Seq<char>>(e@),
        },
{
    llm_content_from_reply(llm_reply(raw))
}

} // verus!
