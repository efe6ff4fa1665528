//! Verified core of a semantic-search companion for a BookStack wiki.

pub mod access_laws;
pub mod acl;
pub mod acl_laws;
pub mod auth;
pub mod backup;
pub mod bookstack;
pub mod calendar;
pub mod chunk_laws;
pub mod chunking;
pub mod config;
pub mod content;
pub mod content_laws;
pub mod crypto;
pub mod directory;
pub mod directory_laws;
pub mod embed_run;
pub mod frontmatter;
pub mod frontmatter_laws;
pub mod index;
pub mod index_laws;
pub mod index_store;
pub mod job_laws;
pub mod jobs;
pub mod json;
pub mod models;
pub mod outline_laws;
pub mod pipeline;
pub mod pipeline_laws;
pub mod providers;
pub mod queue;
pub mod queue_laws;
pub mod rate_limit;
pub mod rows;
pub mod search_laws;
pub mod semantic;
pub mod service_laws;
pub mod settings;
pub mod startup;
pub mod store_laws;
pub mod text;
pub mod text_laws;
pub mod time;
pub mod types;
pub mod vector;
pub mod walk;
pub mod walk_laws;
pub mod worker;
