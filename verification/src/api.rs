use crate::report::{client_report, client_report_of};
use vstd::prelude::*;

verus! {

/// Declares `reqwest::Client`, the HTTP client. Nothing is known of what a
/// client holds: it is only handed on.
#[verifier::external_type_specification]
#[verifier::external_body]
pub struct ExClient(reqwest::Client);

/// Declares `reqwest::Error`, the failure that building a client can end in.
/// Nothing is known of what it holds.
#[verifier::external_type_specification]
#[verifier::external_body]
pub struct ExClientError(reqwest::Error);

/// Calls `reqwest::Client::builder`, `ClientBuilder::user_agent` and
/// `ClientBuilder::build`. Whether a client comes back depends on the
/// machine: the TLS backend has to start and the resolver has to read the
/// system's configuration. So nothing is claimed of the result.
#[verifier::external_body]
fn build_client(user_agent: &str) -> (built: Result<reqwest::Client, reqwest::Error>) {
    reqwest::Client::builder().user_agent(user_agent).build()
}

/// Calls the `Display` of `reqwest::Error`. Nothing is claimed of the text.
#[verifier::external_body]
fn error_text(error: &reqwest::Error) -> (text: String) {
    format!("{error}")
}

/// How building the HTTP client went: the client, if there is one, and the
/// message to log.
pub struct ClientProbe {
    pub client: Option<reqwest::Client>,
    pub message: String,
}

/// The name under which the service presents itself to the catalog.
pub fn user_agent() -> (name: &'static str)
    ensures
        name@ == "Mozilla/5.0 (Windows NT 10.0; Win64; x64) AppleWebKit/537.36 (KHTML, like Gecko) Chrome/91.0.4472.124 Safari/537.36"@,
{
    "Mozilla/5.0 (Windows NT 10.0; Win64; x64) AppleWebKit/537.36 (KHTML, like Gecko) Chrome/91.0.4472.124 Safari/537.36"
}

/// Says how building a client went: with the client, that it was built;
/// with the failure, that it was not, and why.
pub fn report_client(built: Result<reqwest::Client, reqwest::Error>) -> (probe: ClientProbe)
    ensures
        probe.client is Some <==> built is Ok,
        built is Ok ==> probe.client == Some(built->Ok_0) && probe.message@ == client_report_of(None),
        built is Err ==> exists|reason: Seq<char>|
            probe.message@ == client_report_of(Some(reason)),
{
    match built {
        Ok(client) => ClientProbe { client: Some(client), message: client_report(None) },
        Err(error) => {
            let reason = error_text(&error);
            let message = client_report(Some(reason.as_str()));
            assert(message@ == client_report_of(Some(reason@)));
            ClientProbe { client: None, message }
        },
    }
}

/// Builds the HTTP client with which the catalog is asked, and says how that
/// went. Whether the client can be built is for the machine to decide.
pub fn query_movie_request() -> (probe: ClientProbe)
    ensures
        probe.client is Some ==> probe.message@ == client_report_of(None),
        probe.client is None ==> exists|reason: Seq<char>|
            probe.message@ == client_report_of(Some(reason)),
{
    report_client(build_client(user_agent()))
}

} // verus!
