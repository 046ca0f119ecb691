pub mod auth;
pub mod bytes;
pub mod codec;
pub mod error;
pub mod operator_set;
pub mod registry;
pub mod signatures;

pub use auth::{AxelarAuthWeighted, OperatorshipTransferred, OLD_KEY_RETENTION};
pub use codec::{Address, OperatorSetParams, Proof};
pub use error::AuthError;
