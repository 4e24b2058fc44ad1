//! Process configuration: the options read once at startup and the initial
//! offset policy for a fresh consumer group.

use vstd::prelude::*;
use vstd::string::StringExecFns;

verus! {

/// The result of lowercasing a string; named because the full Unicode case
/// mapping is far too large to restate here.
pub uninterp spec fn lower_of(s: Seq<char>) -> Seq<char>;

/// Relies on str::to_lowercase: the result depends on the characters alone.
#[verifier::external_body]
fn to_lowercase(s: &str) -> (r: String)
    ensures
        r@ == lower_of(s@),
{
    s.to_lowercase()
}

/// Where a fresh consumer group starts reading the topic.
#[derive(Clone, Copy, Debug, PartialEq, Eq, Structural)]
pub enum Offset {
    Earliest,
    Latest,
}

impl Offset {
    /// The configuration word for this policy.
    pub open spec fn spec_str(&self) -> Seq<char> {
        match self {
            Offset::Earliest => "earliest"@,
            Offset::Latest => "latest"@,
        }
    }

    /// Renders the policy as the word the broker configuration expects.
    pub fn to_string(&self) -> (r: String)
        ensures
            r@ == self.spec_str(),
    {
        match self {
            Offset::Earliest => "earliest".to_owned(),
            Offset::Latest => "latest".to_owned(),
        }
    }

    /// Parses an offset policy, ignoring case; anything but `earliest` or
    /// `latest` is rejected with a message naming the bad argument.
    pub fn from_str(arg: &str) -> (r: Result<Offset, String>)
        ensures
            r == Ok::<Offset, String>(Offset::Earliest) <==> lower_of(arg@) == "earliest"@,
            r == Ok::<Offset, String>(Offset::Latest) <==> lower_of(arg@) == "latest"@,
            r is Err <==> lower_of(arg@) != "earliest"@ && lower_of(arg@) != "latest"@,
            r is Err ==> r->Err_0@ == "Invalid offset: "@ + arg@
                + ". Must be one of earliest or latest"@,
    {
        proof {
            reveal_strlit("earliest");
            reveal_strlit("latest");
            assert("earliest"@.len() == 8);
            assert("latest"@.len() == 6);
            assert("earliest"@ != "latest"@);
        }
        let lowered = to_lowercase(arg);
        let earliest: String = "earliest".to_owned();
        let latest: String = "latest".to_owned();
        if lowered == earliest {
            Ok(Offset::Earliest)
        } else if lowered == latest {
            Ok(Offset::Latest)
        } else {
            let mut message: String = "Invalid offset: ".to_owned();
            message.append(arg);
            message.append(". Must be one of earliest or latest");
            Err(message)
        }
    }
}

/// The options read once at startup: broker connect string, topic, consumer
/// group, initial offset policy, and the filter expression applied to each
/// message payload.
pub struct CliOptions {
    pub bootstrap_servers: String,
    pub topic: String,
    pub group_id: String,
    pub offset: Offset,
    pub filter: String,
}

} // verus!
