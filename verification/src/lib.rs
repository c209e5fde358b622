//! Virtual display management: EDID generation, output-plan construction,
//! configfs-vkms planning and the up/down/reset lifecycle decisions.

pub mod text;
pub mod error;
pub mod edid;

pub use error::Error;
pub mod compositor;
pub mod state;
pub mod backend;
pub mod lifecycle;
