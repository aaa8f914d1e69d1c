//! The shared secret of a cluster.

use vstd::prelude::*;

use crate::error::{Code, Status, StatusView};
use crate::names::lemma_encoding_injective;
use crate::outside::ct::bytes_ct_eq;

verus! {

/// The token that a request shows; one that shows none shows the empty one.
pub open spec fn shown_token(got: Option<&str>) -> Seq<char> {
    match got {
        Some(t) => t@,
        None => Seq::empty(),
    }
}

/// Lets a request pass that shows the token of the cluster.
pub fn check_token(got: Option<&str>, expected: &str) -> (r: Result<(), Status>)
    ensures
        match r {
            Ok(_) => shown_token(got) == expected@,
            Err(e) => shown_token(got) != expected@ && e@ == (StatusView {
                code: Code::Unauthenticated,
                message: "invalid cluster token"@,
            }),
        },
{
    let got: &str = match got {
        Some(t) => t,
        None => {
            proof {
                reveal_strlit("");
                assert(""@ =~= Seq::empty());
            }
            ""
        },
    };
    if bytes_ct_eq(got.as_bytes(), expected.as_bytes()) {
        proof {
            lemma_encoding_injective(got@, expected@);
        }
        Ok(())
    } else {
        Err(Status::new(Code::Unauthenticated, "invalid cluster token"))
    }
}

/// A request without a token shows the empty one, and no other.
pub proof fn law_shown_tokens(t: &str)
    ensures
        shown_token(Some(t)) == t@,
        shown_token(None).len() == 0,
{
}

} // verus!
