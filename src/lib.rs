//! The core of a small web server: a fixed-size worker pool whose shared
//! state (job queue, worker phases, shutdown) is verified, and the request
//! routing and response framing that the server's jobs perform.
pub mod http;
pub mod scheduler;

pub use http::Route;
pub use http::response;
pub use http::route;
pub use scheduler::Closed;
pub use scheduler::Phase;
pub use scheduler::Scheduler;
pub use scheduler::Take;
