//! Rate limiting.
//!
//! The limiter implements the Generic Cell Rate Algorithm over pluggable
//! backends, with client identity for services behind proxies.
//!
//! - [`gcra`] is the decision core, and [`gcra_laws`] what it promises over
//!   many requests.
//! - [`quota`], [`metrics`] and [`error`] are the vocabulary: what is allowed,
//!   what a check returns, and what can go wrong.
//! - [`backend`] and [`sliding_window`] keep the state of the keys in memory,
//!   [`backend_laws`] and [`sliding_laws`] say what that adds up to.
//! - [`sqlite_check`] and [`redis_check`] are the decisions of the backends
//!   whose state is kept elsewhere.
//! - [`limiter`] and [`keyed`] are the limiters that callers use, and
//!   [`check_laws`] what their checks come to.
//! - [`client_ip`] finds out who a request is from, with addresses in [`ip`],
//!   [`ip_format`] and [`ip_net`]; [`client_ip_laws`], [`ip_laws`] and
//!   [`ip_net_laws`] are what it promises.
//! - [`tower_layer`] is what a middleware does with a request, and
//!   [`layer_laws`] what the keys of requests promise.
//! - [`clock`], [`table`], [`http_headers`] and [`text`] hold what is taken
//!   from elsewhere: time, hash maps, header fields, strings; [`text_laws`] is
//!   what reading and writing texts promises.
pub mod backend;
pub mod backend_laws;
pub mod check_laws;
pub mod client_ip;
pub mod client_ip_laws;
pub mod clock;
pub mod error;
pub mod gcra;
pub mod gcra_laws;
pub mod http_headers;
pub mod ip;
pub mod ip_format;
pub mod ip_laws;
pub mod ip_net;
pub mod ip_net_laws;
pub mod keyed;
pub mod layer_laws;
pub mod limiter;
pub mod metrics;
pub mod quota;
pub mod redis_check;
pub mod sliding_laws;
pub mod sliding_window;
pub mod sqlite_check;
pub mod table;
pub mod text;
pub mod text_laws;
pub mod tower_layer;

pub use crate::backend::{InMemoryBackend, NoopBackend, RateLimitBackend};
pub use crate::client_ip::{
    ClientIpConfig, ClientIpSource, MissingClientIdentity, MissingClientPolicy, ResolvedClient,
};
pub use crate::error::RateLimitError;
pub use crate::gcra::gcra_decide;
pub use crate::ip_net::{ClientIpError, IpNet};
pub use crate::keyed::KeyedRateLimiter;
pub use crate::limiter::RateLimiter;
pub use crate::metrics::RateLimitResult;
pub use crate::quota::Quota;
pub use crate::sliding_window::SlidingWindowBackend;
pub use crate::tower_layer::RateLimitLayer;
