//! The error taxonomy: each error kind with the text it reads as.
//!
//! Error code ranges:
//! - PT001–PT099: dictionary errors
//! - PT100–PT199: storage errors
//! - PT480–PT481: SHACL-AF errors
//! - PT501–PT541: Datalog optimisation, aggregation, well-founded and lattice errors
//! - PT601–PT607: embedding / vector errors
//! - PT700–PT702: LLM integration errors

use vstd::prelude::*;
use crate::text::{int_decimal, nat_digits, push_i64_decimal, push_u64_digits};

verus! {

/// Dictionary-layer errors (PT001–PT099).
#[derive(Debug)]
pub enum DictionaryError {
    /// The term string exceeded the maximum allowed length.
    TermTooLong { len: usize },
    /// A hash collision was detected between two distinct terms.
    HashCollision { term: String },
    /// SPI execution failed during dictionary lookup or insert.
    Spi { msg: String },
}

impl DictionaryError {
    /// The text this error reads as.
    pub open spec fn message_spec(&self) -> Seq<char> {
        match self {
            DictionaryError::TermTooLong { len } => "term too long: "@ + nat_digits(len as nat) + " bytes (max 65535)"@,
            DictionaryError::HashCollision { term } => "hash collision detected for term: "@ + term@,
            DictionaryError::Spi { msg } => "dictionary SPI error: "@ + msg@,
        }
    }

    /// Renders the error as text.
    pub fn message(&self) -> (r: String)
        ensures
            r@ == self.message_spec(),
    {
        match self {
            DictionaryError::TermTooLong { len } => {
                let mut m = String::from_str("term too long: ");
                push_u64_digits(&mut m, *len as u64);
                m.append(" bytes (max 65535)");
                m
            },
            DictionaryError::HashCollision { term } => {
                let mut m = String::from_str("hash collision detected for term: ");
                m.append(term.as_str());
                m
            },
            DictionaryError::Spi { msg } => {
                let mut m = String::from_str("dictionary SPI error: ");
                m.append(msg.as_str());
                m
            },
        }
    }
}

/// Storage-layer errors (PT100–PT199).
#[derive(Debug)]
pub enum StorageError {
    /// The predicate VP table could not be located in the catalog.
    PredicateNotFound { id: i64 },
    /// Dynamic SQL generation produced an invalid identifier.
    InvalidTableName { id: i64 },
    /// SPI execution failed during triple insert, delete, or query.
    Spi { msg: String },
}

impl StorageError {
    /// The text this error reads as.
    pub open spec fn message_spec(&self) -> Seq<char> {
        match self {
            StorageError::PredicateNotFound { id } => "predicate not found in catalog: id="@ + int_decimal(id as int),
            StorageError::InvalidTableName { id } => "invalid VP table name for predicate: id="@ + int_decimal(id as int),
            StorageError::Spi { msg } => "storage SPI error: "@ + msg@,
        }
    }

    /// Renders the error as text.
    pub fn message(&self) -> (r: String)
        ensures
            r@ == self.message_spec(),
    {
        match self {
            StorageError::PredicateNotFound { id } => {
                let mut m = String::from_str("predicate not found in catalog: id=");
                push_i64_decimal(&mut m, *id as i64);
                m
            },
            StorageError::InvalidTableName { id } => {
                let mut m = String::from_str("invalid VP table name for predicate: id=");
                push_i64_decimal(&mut m, *id as i64);
                m
            },
            StorageError::Spi { msg } => {
                let mut m = String::from_str("storage SPI error: ");
                m.append(msg.as_str());
                m
            },
        }
    }
}

/// Embedding / vector subsystem errors (PT601–PT607).
#[derive(Debug)]
pub enum EmbeddingError {
    /// PT601 — embedding API URL not configured.
    ApiUrlNotConfigured,
    /// PT602 — embedding dimension mismatch.
    DimensionMismatch { expected: i32, got: usize },
    /// PT603 — pgvector extension not installed.
    PgvectorNotInstalled,
    /// PT604 — embedding API request failed.
    ApiRequestFailed { status: u16, detail: String },
    /// PT605 — entity has no embedding.
    EntityHasNoEmbedding { entity_iri: String },
    /// PT606 — no stale embeddings found (NOTICE level).
    NoStaleEmbeddings,
    /// PT607 — vector service endpoint not registered.
    VectorEndpointNotRegistered { url: String },
}

impl EmbeddingError {
    /// The text this error reads as.
    pub open spec fn message_spec(&self) -> Seq<char> {
        match self {
            EmbeddingError::ApiUrlNotConfigured => "embedding API URL not configured; set pg_ripple.embedding_api_url"@,
            EmbeddingError::DimensionMismatch { expected, got } => "embedding dimension mismatch: expected "@ + int_decimal(expected as int) + " dimensions (pg_ripple.embedding_dimensions), got "@ + nat_digits(got as nat),
            EmbeddingError::PgvectorNotInstalled => "pgvector extension not installed; install pgvector and recreate _pg_ripple.embeddings to enable hybrid search"@,
            EmbeddingError::ApiRequestFailed { status, detail } => "embedding API request failed (HTTP "@ + nat_digits(status as nat) + "): "@ + detail@,
            EmbeddingError::EntityHasNoEmbedding { entity_iri } => "entity has no embedding: "@ + entity_iri@,
            EmbeddingError::NoStaleEmbeddings => "no stale embeddings found"@,
            EmbeddingError::VectorEndpointNotRegistered { url } => "vector service endpoint not registered: "@ + url@ + "; register it with pg_ripple.register_vector_endpoint() first"@,
        }
    }

    /// Renders the error as text.
    pub fn message(&self) -> (r: String)
        ensures
            r@ == self.message_spec(),
    {
        match self {
            EmbeddingError::ApiUrlNotConfigured => {
                let mut m = String::from_str("embedding API URL not configured; set pg_ripple.embedding_api_url");
                m
            },
            EmbeddingError::DimensionMismatch { expected, got } => {
                let mut m = String::from_str("embedding dimension mismatch: expected ");
                push_i64_decimal(&mut m, *expected as i64);
                m.append(" dimensions (pg_ripple.embedding_dimensions), got ");
                push_u64_digits(&mut m, *got as u64);
                m
            },
            EmbeddingError::PgvectorNotInstalled => {
                let mut m = String::from_str("pgvector extension not installed; install pgvector and recreate _pg_ripple.embeddings to enable hybrid search");
                m
            },
            EmbeddingError::ApiRequestFailed { status, detail } => {
                let mut m = String::from_str("embedding API request failed (HTTP ");
                push_u64_digits(&mut m, *status as u64);
                m.append("): ");
                m.append(detail.as_str());
                m
            },
            EmbeddingError::EntityHasNoEmbedding { entity_iri } => {
                let mut m = String::from_str("entity has no embedding: ");
                m.append(entity_iri.as_str());
                m
            },
            EmbeddingError::NoStaleEmbeddings => {
                let mut m = String::from_str("no stale embeddings found");
                m
            },
            EmbeddingError::VectorEndpointNotRegistered { url } => {
                let mut m = String::from_str("vector service endpoint not registered: ");
                m.append(url.as_str());
                m.append("; register it with pg_ripple.register_vector_endpoint() first");
                m
            },
        }
    }
}

/// Datalog optimization errors (PT501–PT502).
#[derive(Debug)]
pub enum DatalogOptError {
    /// PT501 — magic sets transformation failed due to a circular binding pattern.
    MagicSetsCircularBinding { goal: String, rule_set: String },
    /// PT502 — cost-based body atom reordering skipped (statistics unavailable).
    CostReorderSkipped { rule_text: String },
}

impl DatalogOptError {
    /// The text this error reads as.
    pub open spec fn message_spec(&self) -> Seq<char> {
        match self {
            DatalogOptError::MagicSetsCircularBinding { goal, rule_set } => "magic sets transformation failed for goal '"@ + goal@ + "': circular binding pattern detected in rule set '"@ + rule_set@ + "'; falling back to full materialization (PT501)"@,
            DatalogOptError::CostReorderSkipped { rule_text } => "cost-based reordering skipped for rule '"@ + rule_text@ + "': VP table statistics unavailable (run ANALYZE on _pg_ripple schema); using original atom order (PT502)"@,
        }
    }

    /// Renders the error as text.
    pub fn message(&self) -> (r: String)
        ensures
            r@ == self.message_spec(),
    {
        match self {
            DatalogOptError::MagicSetsCircularBinding { goal, rule_set } => {
                let mut m = String::from_str("magic sets transformation failed for goal '");
                m.append(goal.as_str());
                m.append("': circular binding pattern detected in rule set '");
                m.append(rule_set.as_str());
                m.append("'; falling back to full materialization (PT501)");
                m
            },
            DatalogOptError::CostReorderSkipped { rule_text } => {
                let mut m = String::from_str("cost-based reordering skipped for rule '");
                m.append(rule_text.as_str());
                m.append("': VP table statistics unavailable (run ANALYZE on _pg_ripple schema); using original atom order (PT502)");
                m
            },
        }
    }
}

/// Datalog aggregation errors (PT510–PT511).
#[derive(Debug)]
pub enum DatalogAggError {
    /// PT510 — aggregation-stratification violation.
    AggStratificationViolation { rule_set: String, agg_pred: String },
    /// PT511 — unsupported aggregate function in rule body.
    UnsupportedAggFunc { func: String, rule_text: String },
}

impl DatalogAggError {
    /// The text this error reads as.
    pub open spec fn message_spec(&self) -> Seq<char> {
        match self {
            DatalogAggError::AggStratificationViolation { rule_set, agg_pred } => "aggregation-stratification violation in rule set '"@ + rule_set@ + "': predicate '"@ + agg_pred@ + "' is being aggregated but it is not fully computed before the aggregate rule fires — this creates a cycle through aggregation which is not allowed (PT510)"@,
            DatalogAggError::UnsupportedAggFunc { func, rule_text } => "unsupported aggregate function '"@ + func@ + "' in rule body '"@ + rule_text@ + "'; supported functions are COUNT, SUM, MIN, MAX, AVG (PT511)"@,
        }
    }

    /// Renders the error as text.
    pub fn message(&self) -> (r: String)
        ensures
            r@ == self.message_spec(),
    {
        match self {
            DatalogAggError::AggStratificationViolation { rule_set, agg_pred } => {
                let mut m = String::from_str("aggregation-stratification violation in rule set '");
                m.append(rule_set.as_str());
                m.append("': predicate '");
                m.append(agg_pred.as_str());
                m.append("' is being aggregated but it is not fully computed before the aggregate rule fires — this creates a cycle through aggregation which is not allowed (PT510)");
                m
            },
            DatalogAggError::UnsupportedAggFunc { func, rule_text } => {
                let mut m = String::from_str("unsupported aggregate function '");
                m.append(func.as_str());
                m.append("' in rule body '");
                m.append(rule_text.as_str());
                m.append("'; supported functions are COUNT, SUM, MIN, MAX, AVG (PT511)");
                m
            },
        }
    }
}

/// Well-founded semantics errors (PT520).
#[derive(Debug)]
pub enum WfsError {
    /// PT520 — well-founded fixpoint did not converge within `wfs_max_iterations`.
    FixpointNotConverged { rule_set: String, max_iter: i32 },
}

impl WfsError {
    /// The text this error reads as.
    pub open spec fn message_spec(&self) -> Seq<char> {
        match self {
            WfsError::FixpointNotConverged { rule_set, max_iter } => "well-founded fixpoint did not converge within "@ + int_decimal(max_iter as int) + " iterations for rule set '"@ + rule_set@ + "'; results may be incomplete (PT520)"@,
        }
    }

    /// Renders the error as text.
    pub fn message(&self) -> (r: String)
        ensures
            r@ == self.message_spec(),
    {
        match self {
            WfsError::FixpointNotConverged { rule_set, max_iter } => {
                let mut m = String::from_str("well-founded fixpoint did not converge within ");
                push_i64_decimal(&mut m, *max_iter as i64);
                m.append(" iterations for rule set '");
                m.append(rule_set.as_str());
                m.append("'; results may be incomplete (PT520)");
                m
            },
        }
    }
}

/// LLM integration errors (PT700–PT702).
#[derive(Debug)]
pub enum LlmError {
    /// PT700 — LLM endpoint not configured or unreachable.
    EndpointUnreachable { detail: String },
    /// PT701 — LLM response did not contain a SPARQL query.
    NonSparqlResponse { raw: String },
    /// PT702 — LLM-generated SPARQL failed to parse.
    ParseFailed { parse_error: String, query: String },
}

impl LlmError {
    /// The text this error reads as.
    pub open spec fn message_spec(&self) -> Seq<char> {
        match self {
            LlmError::EndpointUnreachable { detail } => "LLM endpoint unreachable or returned HTTP error: "@ + detail@ + " (PT700); set pg_ripple.llm_endpoint to an OpenAI-compatible base URL"@,
            LlmError::NonSparqlResponse { raw } => "LLM response did not contain a valid SPARQL query (PT701); raw response: "@ + raw@,
            LlmError::ParseFailed { parse_error, query } => "LLM-generated SPARQL query failed to parse (PT702): "@ + parse_error@ + "; query text: "@ + query@,
        }
    }

    /// Renders the error as text.
    pub fn message(&self) -> (r: String)
        ensures
            r@ == self.message_spec(),
    {
        match self {
            LlmError::EndpointUnreachable { detail } => {
                let mut m = String::from_str("LLM endpoint unreachable or returned HTTP error: ");
                m.append(detail.as_str());
                m.append(" (PT700); set pg_ripple.llm_endpoint to an OpenAI-compatible base URL");
                m
            },
            LlmError::NonSparqlResponse { raw } => {
                let mut m = String::from_str("LLM response did not contain a valid SPARQL query (PT701); raw response: ");
                m.append(raw.as_str());
                m
            },
            LlmError::ParseFailed { parse_error, query } => {
                let mut m = String::from_str("LLM-generated SPARQL query failed to parse (PT702): ");
                m.append(parse_error.as_str());
                m.append("; query text: ");
                m.append(query.as_str());
                m
            },
        }
    }
}

/// SHACL-AF errors (PT480–PT481).
#[derive(Debug)]
pub enum ShAFError {
    /// PT480 — `sh:rule` (SHACL-AF) detected but not compiled.
    ShAFRuleUnsupported { count: i32 },
    /// PT481 — `sh:sparql` (SHACL-SPARQL) constraint query failed to execute.
    SparqlConstraintFailed { detail: String },
}

impl ShAFError {
    /// The text this error reads as.
    pub open spec fn message_spec(&self) -> Seq<char> {
        match self {
            ShAFError::ShAFRuleUnsupported { count } => "SHACL-AF sh:rule detected but not compiled (PT480): "@ + int_decimal(count as int) + " rule(s) found; set pg_ripple.inference_mode to 'on_demand' to enable compilation"@,
            ShAFError::SparqlConstraintFailed { detail } => "SHACL-SPARQL constraint query execution failed (PT481): "@ + detail@,
        }
    }

    /// Renders the error as text.
    pub fn message(&self) -> (r: String)
        ensures
            r@ == self.message_spec(),
    {
        match self {
            ShAFError::ShAFRuleUnsupported { count } => {
                let mut m = String::from_str("SHACL-AF sh:rule detected but not compiled (PT480): ");
                push_i64_decimal(&mut m, *count as i64);
                m.append(" rule(s) found; set pg_ripple.inference_mode to 'on_demand' to enable compilation");
                m
            },
            ShAFError::SparqlConstraintFailed { detail } => {
                let mut m = String::from_str("SHACL-SPARQL constraint query execution failed (PT481): ");
                m.append(detail.as_str());
                m
            },
        }
    }
}

/// NS-RL evaluation errors (PT0461–PT0462).
#[derive(Debug)]
pub enum NsrlEvaluationError {
    /// PT0461 — `evaluate_resolution()` gold graph is empty or does not exist.
    GoldGraphEmpty { graph: String },
    /// PT0462 — `explain_rule()` rule not found.
    RuleNotFound { rule_id: i64 },
}

impl NsrlEvaluationError {
    /// The text this error reads as.
    pub open spec fn message_spec(&self) -> Seq<char> {
        match self {
            NsrlEvaluationError::GoldGraphEmpty { graph } => "evaluate_resolution: gold graph '"@ + graph@ + "' is empty or does not exist (PT0461)"@,
            NsrlEvaluationError::RuleNotFound { rule_id } => "explain_rule: rule "@ + int_decimal(rule_id as int) + " not found (PT0462)"@,
        }
    }

    /// Renders the error as text.
    pub fn message(&self) -> (r: String)
        ensures
            r@ == self.message_spec(),
    {
        match self {
            NsrlEvaluationError::GoldGraphEmpty { graph } => {
                let mut m = String::from_str("evaluate_resolution: gold graph '");
                m.append(graph.as_str());
                m.append("' is empty or does not exist (PT0461)");
                m
            },
            NsrlEvaluationError::RuleNotFound { rule_id } => {
                let mut m = String::from_str("explain_rule: rule ");
                push_i64_decimal(&mut m, *rule_id as i64);
                m.append(" not found (PT0462)");
                m
            },
        }
    }
}

/// Lattice errors (PT540–PT541).
#[derive(Debug)]
pub enum LatticeError {
    /// PT540 — lattice fixpoint did not converge within the iteration limit.
    FixpointNotConverged { lattice: String },
    /// PT541 — a lattice join function could not be resolved as a procedure reference.
    LatticeJoinFnInvalid { join_fn: String },
}

impl LatticeError {
    /// The text this error reads as.
    pub open spec fn message_spec(&self) -> Seq<char> {
        match self {
            LatticeError::FixpointNotConverged { lattice } => "lattice fixpoint did not converge within the iteration limit for lattice '"@ + lattice@ + "'; partial results returned (PT540)"@,
            LatticeError::LatticeJoinFnInvalid { join_fn } => "lattice join function '"@ + join_fn@ + "' could not be resolved as a PostgreSQL procedure reference (PT541); use a schema-qualified name such as 'myschema.myfunc(bigint, bigint)'"@,
        }
    }

    /// Renders the error as text.
    pub fn message(&self) -> (r: String)
        ensures
            r@ == self.message_spec(),
    {
        match self {
            LatticeError::FixpointNotConverged { lattice } => {
                let mut m = String::from_str("lattice fixpoint did not converge within the iteration limit for lattice '");
                m.append(lattice.as_str());
                m.append("'; partial results returned (PT540)");
                m
            },
            LatticeError::LatticeJoinFnInvalid { join_fn } => {
                let mut m = String::from_str("lattice join function '");
                m.append(join_fn.as_str());
                m.append("' could not be resolved as a PostgreSQL procedure reference (PT541); use a schema-qualified name such as 'myschema.myfunc(bigint, bigint)'");
                m
            },
        }
    }
}

} // verus!
