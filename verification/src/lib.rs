pub mod client;
pub mod error;
pub mod model;
pub mod model_private;
pub mod feature;
pub mod version;
pub mod bucket;
pub mod hash;
pub mod extensions;
pub mod model_public;
pub mod numstr;
