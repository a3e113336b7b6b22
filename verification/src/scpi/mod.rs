pub mod decision;
pub mod framing;
pub mod protocol;
pub mod session;

pub use framing::extract_response;
pub use protocol::{is_opc_supported_reply, is_syst_err_supported_reply};
pub use session::ScpiSession;
