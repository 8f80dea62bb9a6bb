pub mod aggregate;
pub mod code_queries;
pub mod decimal;
pub mod github_query;
pub mod runner;
pub mod search;
pub mod table;
