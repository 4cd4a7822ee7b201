//! Verified core of the Orchestra Automation runtime.
pub mod text;
pub mod digest;
pub mod json;
pub mod plan;
pub mod automation;
pub mod order;
pub mod automation_run;
pub mod automation_policy;
pub mod paths;
pub mod automation_store;
pub mod automation_effects;
pub mod automation_queue;
pub mod segments;
pub mod keyed;
pub mod automation_claims;
pub mod automation_coordinate;
pub mod automation_dispatch;
pub mod automation_reconcile;
pub mod automation_start;
pub mod protocol;
pub mod lexical;
pub mod automation_validate;
pub mod automation_profile;
pub mod compiler;
pub mod orchestra_control;
pub mod query;
pub mod protocol_query;
pub mod linear;
pub mod inputs;
pub mod parser;
pub mod context;
pub mod lowering;
pub mod prompt;
pub mod artifact;
pub mod evaluator;
pub mod profile_json;
pub mod plan_json;
pub mod protocol_v1;
pub mod plan_steps;
