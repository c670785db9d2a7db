//! The greeting service: a request is answered with a greeting when its
//! name, lower-cased, contains the word "hello", and rejected as an
//! invalid argument otherwise.

use vstd::prelude::*;

verus! {

use crate::errors::{UpstreamError, UpstreamStatus};

#[derive(Debug, Clone, PartialEq, Eq)]
pub struct HelloRequest {
    pub name: String,
}

#[derive(Debug, Clone, PartialEq, Eq)]
pub struct HelloResponse {
    pub message: String,
}

/// What `str::to_lowercase` returns; it depends on the characters alone.
pub uninterp spec fn lower_of(s: Seq<char>) -> Seq<char>;

/// Relies on `str::to_lowercase`: the result is a function of the
/// characters alone, and an empty string stays empty.
#[verifier::external_body]
fn lowercase(s: &str) -> (r: String)
    ensures
        r@ == lower_of(s@),
        s@.len() == 0 ==> r@.len() == 0,
{
    s.to_lowercase()
}

/// `needle` occurs contiguously somewhere in `hay`.
pub open spec fn contains_seq(hay: Seq<char>, needle: Seq<char>) -> bool {
    exists|i: int|
        0 <= i && i + needle.len() <= hay.len() && #[trigger] hay.subrange(i, i + needle.len())
            == needle
}

/// True exactly when `needle` occurs contiguously in `hay`.
pub fn str_contains(hay: &str, needle: &str) -> (r: bool)
    ensures
        r == contains_seq(hay@, needle@),
{
    let hlen = hay.unicode_len();
    let nlen = needle.unicode_len();
    if nlen > hlen {
        return false;
    }
    if nlen == 0 {
        proof {
            assert(hay@.subrange(0, 0 + needle@.len() as int) =~= needle@);
        }
        return true;
    }
    let mut i: usize = 0;
    while i <= hlen - nlen
        invariant
            hlen == hay@.len(),
            nlen == needle@.len(),
            1 <= nlen <= hlen,
            i <= hlen - nlen + 1,
            forall|k: int|
                0 <= k < i ==> #[trigger] hay@.subrange(k, k + needle@.len() as int) != needle@,
        decreases hlen - nlen - i + 1,
    {
        let mut j: usize = 0;
        let mut matched = true;
        while j < nlen && matched
            invariant
                j <= nlen,
                hlen == hay@.len(),
                nlen == needle@.len(),
                i + nlen <= hlen,
                matched ==> forall|m: int| 0 <= m < j ==> hay@[i + m] == needle@[m],
                !matched ==> hay@.subrange(i as int, i + nlen as int) != needle@,
            decreases nlen - j + (if matched {
                1int
            } else {
                0int
            }),
        {
            let hc = hay.get_char(i + j);
            let nc = needle.get_char(j);
            if hc != nc {
                proof {
                    assert(hay@.subrange(i as int, i + nlen as int)[j as int] == hay@[i + j]);
                }
                matched = false;
            } else {
                j = j + 1;
            }
        }
        if matched {
            proof {
                assert(hay@.subrange(i as int, i + nlen as int) =~= needle@);
            }
            return true;
        }
        i = i + 1;
    }
    proof {
        assert(!contains_seq(hay@, needle@)) by {
            if contains_seq(hay@, needle@) {
                let k = choose|k: int|
                    0 <= k && k + needle@.len() <= hay@.len() && #[trigger] hay@.subrange(
                        k,
                        k + needle@.len() as int,
                    ) == needle@;
                assert(hay@.subrange(k, k + needle@.len() as int) != needle@);
            }
        }
    }
    false
}

/// The greeting service; a test double of the upstream in spirit, but
/// with real argument checking.
#[derive(Debug, Default)]
pub struct MyHelloService;

impl MyHelloService {
    /// Greets the caller when the lower-cased name contains "hello",
    /// and rejects the request as an invalid argument otherwise.
    pub fn say_hello(&self, request: HelloRequest) -> (r: Result<HelloResponse, UpstreamError>)
        ensures
            (r is Ok) == contains_seq(lower_of(request.name@), "hello"@),
            r matches Ok(res) ==> res.message@ == "Hello, "@ + request.name@ + "!"@,
            r matches Err(e) ==> e.status == UpstreamStatus::InvalidArgument && e.message@
                == "Message must contain 'hello'"@,
    {
        let lowered = lowercase(request.name.as_str());
        if str_contains(lowered.as_str(), "hello") {
            let mut message = String::from_str("Hello, ");
            message.append(request.name.as_str());
            message.append("!");
            Ok(HelloResponse { message })
        } else {
            Err(
                UpstreamError {
                    status: UpstreamStatus::InvalidArgument,
                    message: String::from_str("Message must contain 'hello'"),
                },
            )
        }
    }
}

} // verus!
