use vstd::prelude::*;
use vstd::string::*;
use zookeeper::ZkError;

verus! {

/// The error type of the ZooKeeper client, carried through unchanged.
#[verifier::external_type_specification]
#[verifier::external_body]
pub struct ExZkError(ZkError);

/// Errors of the lock recipes.
#[derive(Debug)]
pub enum RcpError {
    /// The ZooKeeper server or client reported an error.
    ZkErr(ZkError),
    /// The lock found the coordination tree in a shape it cannot work with
    /// (for instance its own node is missing from the lock directory).
    InternalError,
}

impl From<ZkError> for RcpError {
    fn from(err: ZkError) -> (res: RcpError) {
        RcpError::ZkErr(err)
    }
}

impl RcpError {
    /// The text that describes the error: the ZooKeeper error's own text
    /// after `Zookeeper Error: `, or `Eecipe Error: InternalError`.
    pub fn message(&self) -> (m: String)
        ensures
            match self {
                RcpError::ZkErr(e) => exists|t: String|
                    to_string_from_display_ensures::<ZkError>(e, t) && m@ == "Zookeeper Error: "@
                        + #[trigger] t@,
                RcpError::InternalError => m@ == "Eecipe Error: InternalError"@,
            },
    {
        match self {
            RcpError::ZkErr(e) => {
                let t = e.to_string();
                let head = String::from_str("Zookeeper Error: ");
                let m = head.concat(t.as_str());
                assert(to_string_from_display_ensures::<ZkError>(e, t) && m@ == "Zookeeper Error: "@
                    + t@);
                m
            },
            RcpError::InternalError => String::from_str("Eecipe Error: InternalError"),
        }
    }
}

impl vstd::std_specs::convert::FromSpecImpl<ZkError> for RcpError {
    open spec fn obeys_from_spec() -> bool {
        true
    }

    open spec fn from_spec(v: ZkError) -> RcpError {
        RcpError::ZkErr(v)
    }
}

} // verus!
