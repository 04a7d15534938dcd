pub mod app_state;
pub mod channel;
pub mod event;
pub mod history;
pub mod local_user_state;
pub mod room;
pub mod room_table;
pub mod metrics;

pub use app_state::AppState;
pub use event::ChatEvent;
pub use local_user_state::LocalUserState;
pub use metrics::{AppMetrics, AppMetricsSnapshot};
