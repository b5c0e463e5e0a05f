//! The request that the Fixstars Amplify service is sent.

pub mod request;
