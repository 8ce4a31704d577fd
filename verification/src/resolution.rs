//! Entity resolution: blocking templates, the decision whether `owl:sameAs`
//! assertions are stored, and the pairwise counts of an evaluation.

use vstd::prelude::*;
use crate::text::{int_decimal, push_i64_decimal, str_eq};

verus! {

/// The blocking template on a shared `schema:email` value.
pub open spec fn email_template() -> Seq<char> {
    "?x <http://www.w3.org/2002/07/owl#sameAs> ?y :- ?x <https://schema.org/email> ?e . ?y <https://schema.org/email> ?e . ?x != ?y ."@
}

/// The blocking template on a shared postal code and RDF type.
pub open spec fn postal_name_template() -> Seq<char> {
    "candidate(?x, ?y) :- ?x <https://schema.org/postalCode> ?z . ?y <https://schema.org/postalCode> ?z . ?x <http://www.w3.org/1999/02/22-rdf-syntax-ns#type> ?c . ?y <http://www.w3.org/1999/02/22-rdf-syntax-ns#type> ?c . ?x != ?y ."@
}

/// The blocking template on names within a small edit distance.
pub open spec fn name_prefix_template() -> Seq<char> {
    "candidate(?x, ?y) :- ?x <https://schema.org/name> ?n1 . ?y <https://schema.org/name> ?n2 . ?x != ?y . pg:levenshtein(?n1, ?n2) < 4 ."@
}

fn text(s: &str) -> (r: String)
    ensures
        r@ == s@,
{
    let mut out = String::new();
    out.append(s);
    out
}

/// The built-in blocking templates as `(name, description, rule)`.
pub fn er_blocking_templates() -> (r: Vec<(String, String, String)>)
    ensures
        r@.len() == 3,
        r@[0].0@ == "email"@ && r@[0].1@ == "Block on shared schema:email value (exact match)"@ && r@[0].2@
            == email_template(),
        r@[1].0@ == "postal_name"@ && r@[1].1@ == "Block on shared postal code and RDF type (structural co-location)"@
            && r@[1].2@ == postal_name_template(),
        r@[2].0@ == "name_prefix"@ && r@[2].1@
            == "Block on shared name prefix (first 4 chars) via levenshtein distance"@ && r@[2].2@
            == name_prefix_template(),
{
    let mut v: Vec<(String, String, String)> = Vec::new();
    v.push(
        (
            text("email"),
            text("Block on shared schema:email value (exact match)"),
            text(
                "?x <http://www.w3.org/2002/07/owl#sameAs> ?y :- ?x <https://schema.org/email> ?e . ?y <https://schema.org/email> ?e . ?x != ?y .",
            ),
        ),
    );
    v.push(
        (
            text("postal_name"),
            text("Block on shared postal code and RDF type (structural co-location)"),
            text(
                "candidate(?x, ?y) :- ?x <https://schema.org/postalCode> ?z . ?y <https://schema.org/postalCode> ?z . ?x <http://www.w3.org/1999/02/22-rdf-syntax-ns#type> ?c . ?y <http://www.w3.org/1999/02/22-rdf-syntax-ns#type> ?c . ?x != ?y .",
            ),
        ),
    );
    v.push(
        (
            text("name_prefix"),
            text("Block on shared name prefix (first 4 chars) via levenshtein distance"),
            text(
                "candidate(?x, ?y) :- ?x <https://schema.org/name> ?n1 . ?y <https://schema.org/name> ?n2 . ?x != ?y . pg:levenshtein(?n1, ?n2) < 4 .",
            ),
        ),
    );
    v
}

/// The rule text of the template `name`, or the error naming the valid
/// templates.
pub open spec fn er_blocking_template_spec(name: Seq<char>) -> Result<Seq<char>, Seq<char>> {
    if name == "email"@ {
        Ok(email_template())
    } else if name == "postal_name"@ {
        Ok(postal_name_template())
    } else if name == "name_prefix"@ {
        Ok(name_prefix_template())
    } else {
        Err("unknown ER blocking template '"@ + name + "'; valid names: email, postal_name, name_prefix"@)
    }
}

/// The rule text of the blocking template `name`.
pub fn er_blocking_template(name: &str) -> (r: Result<String, String>)
    ensures
        match er_blocking_template_spec(name@) {
            Ok(t) => r matches Ok(s) && s@ == t,
            Err(e) => r matches Err(m) && m@ == e,
        },
{
    let all = er_blocking_templates();
    let mut i: usize = 0;
    while i < all.len()
        invariant
            all@.len() == 3,
            all@[0].0@ == "email"@ && all@[0].2@ == email_template(),
            all@[1].0@ == "postal_name"@ && all@[1].2@ == postal_name_template(),
            all@[2].0@ == "name_prefix"@ && all@[2].2@ == name_prefix_template(),
            i <= 3,
            forall|k: int| 0 <= k < i ==> all@[k].0@ != name@,
        decreases 3 - i,
    {
        if str_eq(all[i].0.as_str(), name) {
            return Ok(all[i].2.clone());
        }
        i = i + 1;
    }
    let mut m = String::new();
    m.append("unknown ER blocking template '");
    m.append(name);
    m.append("'; valid names: email, postal_name, name_prefix");
    Err(m)
}

// ─── Deciding whether to store ─────────────────────────────────────────────────

/// What a resolution run does after blocking, candidate generation and the
/// SHACL count.
#[derive(Debug, Clone, Copy, PartialEq, Eq, Structural)]
pub enum ResolutionStep {
    /// A dry run: report the counts and write nothing.
    Report { candidates: i64, symbolic: i64, neural: i64, would_assert: i64, blocked_by_shacl: i64 },
    /// More assertions than the rate limit allows (PT0460).
    RateLimited { would_assert: i64 },
    /// Canonicalise and annotate.
    Proceed,
}

/// The candidates that survive the SHACL gate, never below zero.
pub open spec fn would_assert_spec(symbolic: i64, neural: i64, blocked: i64) -> int {
    if symbolic + neural - blocked > 0 {
        symbolic + neural - blocked
    } else {
        0
    }
}

/// Decides the next step of a run from the symbolic and neural candidate
/// counts, the candidates the SHACL gate blocks, the rate limit and whether
/// the run is dry.
pub fn resolution_step(symbolic: i64, neural: i64, blocked: i64, rate_limit: i32, dry_run: bool) -> (r:
    ResolutionStep)
    requires
        0 <= symbolic,
        0 <= neural,
        0 <= blocked,
        symbolic + neural <= i64::MAX,
    ensures
        dry_run ==> r == (ResolutionStep::Report {
            candidates: (symbolic + neural) as i64,
            symbolic,
            neural,
            would_assert: would_assert_spec(symbolic, neural, blocked) as i64,
            blocked_by_shacl: blocked,
        }),
        !dry_run && would_assert_spec(symbolic, neural, blocked) > rate_limit ==> r == (ResolutionStep::RateLimited {
            would_assert: would_assert_spec(symbolic, neural, blocked) as i64,
        }),
        !dry_run && would_assert_spec(symbolic, neural, blocked) <= rate_limit ==> r == ResolutionStep::Proceed,
{
    let total = symbolic + neural;
    let diff = total - blocked;
    let would = if diff > 0 {
        diff
    } else {
        0
    };
    if dry_run {
        ResolutionStep::Report { candidates: total, symbolic, neural, would_assert: would, blocked_by_shacl: blocked }
    } else if would > rate_limit as i64 {
        ResolutionStep::RateLimited { would_assert: would }
    } else {
        ResolutionStep::Proceed
    }
}

/// The PT0460 error text.
pub open spec fn rate_limit_message_spec(would_assert: i64, rate_limit: i32) -> Seq<char> {
    "entity resolution rate limit exceeded: "@ + int_decimal(would_assert as int) + " of "@ + int_decimal(
        rate_limit as int,
    ) + " allowed sameAs assertions (PT0460)"@
}

/// The error of a run stopped by the rate limit.
pub fn rate_limit_message(would_assert: i64, rate_limit: i32) -> (r: String)
    ensures
        r@ == rate_limit_message_spec(would_assert, rate_limit),
{
    let mut m = String::new();
    m.append("entity resolution rate limit exceeded: ");
    push_i64_decimal(&mut m, would_assert);
    m.append(" of ");
    push_i64_decimal(&mut m, rate_limit as i64);
    m.append(" allowed sameAs assertions (PT0460)");
    m
}

// ─── Evaluation against a gold graph ─────────────────────────────────────────

/// The pairwise counts `(true positives, false positives, false negatives)`
/// of `predicted` pairs against `gold` pairs: true positives estimated as
/// the smaller count (none when either is empty).
pub fn confusion_counts(gold: i64, predicted: i64) -> (r: (i64, i64, i64))
    requires
        0 <= gold,
        0 <= predicted,
    ensures
        r.0 == (if gold == 0 || predicted == 0 {
            0
        } else if predicted < gold {
            predicted
        } else {
            gold
        }),
        r.1 == predicted - r.0,
        r.2 == gold - r.0,
{
    let tp = if predicted == 0 || gold == 0 {
        0
    } else if predicted < gold {
        predicted
    } else {
        gold
    };
    (tp, predicted - tp, gold - tp)
}

} // verus!
