//! Turning failures into the messages that the binding raises.
use crate::text::{join_topic, topic_message};
use vstd::prelude::*;
use vstd::string::StringExecFns;

verus! {

/// Gives a failure a message that names what was being done.
pub trait ToPyError<T>: Sized {
    /// Keeps a success; turns a failure into a message that starts with `topic`.
    fn convert_err(self, topic: &str) -> Result<T, String>;
}

impl<T> ToPyError<T> for Result<T, String> {
    /// A failure's message is `topic`, a colon, a space and the failure's text.
    fn convert_err(self, topic: &str) -> (r: Result<T, String>)
        ensures
            match self {
                Ok(v) => r == Ok::<T, String>(v),
                Err(e) => r matches Err(msg) && msg@ == topic_message(topic@, e@),
            },
    {
        match self {
            Ok(v) => Ok(v),
            Err(e) => Err(join_topic(topic, e.as_str())),
        }
    }
}

impl<T> ToPyError<T> for Option<T> {
    /// A missing value's message is `topic` itself.
    fn convert_err(self, topic: &str) -> (r: Result<T, String>)
        ensures
            match self {
                Some(v) => r == Ok::<T, String>(v),
                None => r matches Err(msg) && msg@ == topic@,
            },
    {
        match self {
            Some(v) => Ok(v),
            None => Err(String::from_str(topic)),
        }
    }
}

} // verus!
