//! Library errors: a code and a human-readable message.

use vstd::prelude::*;

use crate::model::Flag;

verus! {

use vstd::string::StringExecFns;

/// What went wrong.
#[derive(Clone, Copy, Debug, PartialEq, Eq, Structural)]
pub enum GrowthbookErrorCode {
    GenericError,
    SerdeDeserialize,
    ParseError,
    MissingEnvironmentVariable,
    GrowthbookGateway,
    GrowthbookGatewayDeserialize,
    InvalidResponseValueType,
    GrowthBookAttributeIsNotObject,
}

/// An error with its code and message.
#[derive(Debug)]
pub struct GrowthbookError {
    pub code: GrowthbookErrorCode,
    pub message: String,
}

/// The text an error message shows for a flag value.
pub open spec fn spec_flag_text(flag: Flag) -> Seq<char> {
    match flag {
        Flag::BooleanFlag(it) => if it.enabled {
            seq!['t', 'r', 'u', 'e']
        } else {
            seq!['f', 'a', 'l', 's', 'e']
        },
        Flag::StringFlag(it) => it.value@,
        Flag::InvalidFlag() => "'INVALID TYPE'"@,
    }
}

impl GrowthbookError {
    /// An error from a code and a message.
    pub fn new(code: GrowthbookErrorCode, message: &str) -> (r: GrowthbookError)
        ensures
            r.code == code,
            r.message@ == message@,
    {
        GrowthbookError { code, message: message.to_owned() }
    }

    /// The error for a flag value whose type is not the requested one: the
    /// message names the value and the expected type.
    pub fn invalid_response_value_type(flag: Flag, expected_type: &str) -> (r: GrowthbookError)
        ensures
            r.code == GrowthbookErrorCode::InvalidResponseValueType,
            r.message@ == "Invalid value="@ + spec_flag_text(flag) + " for expected type="@
                + expected_type@,
    {
        let value: String = match flag {
            Flag::BooleanFlag(it) => {
                if it.enabled {
                    let s = "true".to_owned();
                    proof {
                        reveal_strlit("true");
                        assert(s@ =~= seq!['t', 'r', 'u', 'e']);
                    }
                    s
                } else {
                    let s = "false".to_owned();
                    proof {
                        reveal_strlit("false");
                        assert(s@ =~= seq!['f', 'a', 'l', 's', 'e']);
                    }
                    s
                }
            },
            Flag::StringFlag(it) => it.value,
            Flag::InvalidFlag() => "'INVALID TYPE'".to_owned(),
        };
        let mut message = "Invalid value=".to_owned();
        message.append(value.as_str());
        message.append(" for expected type=");
        message.append(expected_type);
        GrowthbookError { code: GrowthbookErrorCode::InvalidResponseValueType, message }
    }
}

} // verus!
