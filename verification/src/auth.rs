//! Authorization-flow values: the authorization URL, the random state
//! token, stored credentials and the refresh decision.

use vstd::prelude::*;
use vstd::string::*;

verus! {

/// Credentials as the surrounding application stores them.
pub struct StoredCredentials {
    pub token: String,
    pub refresh_token: Option<String>,
    pub expires_at: Option<i64>,
    pub portal_id: Option<u32>,
    pub ui_domain: Option<String>,
}

/// The portal facts shown to the operator after sign-in.
pub struct PortalInfo {
    pub portal_id: u32,
    pub ui_domain: String,
}

/// The scopes the flow asks for, percent-joined.
pub open spec fn spec_scopes() -> Seq<char> {
    "oauth%20crm.objects.contacts.read%20crm.objects.contacts.write%20crm.objects.companies.read%20crm.objects.companies.write%20crm.objects.deals.read%20crm.objects.deals.write%20crm.objects.custom.read%20crm.objects.custom.write%20crm.schemas.contacts.read%20crm.schemas.companies.read%20crm.schemas.deals.read%20crm.schemas.custom.read%20tickets%20files"@
}

/// The authorization URL for one sign-in attempt.
pub open spec fn spec_auth_url(
    client_id: Seq<char>,
    worker_url: Seq<char>,
    state: Seq<char>,
) -> Seq<char> {
    "https://app.hubspot.com/oauth/authorize?client_id="@ + client_id + "&redirect_uri="@
        + worker_url + "/oauth/callback&scope="@ + spec_scopes() + "&state="@ + state
}

/// Build the authorization URL.
pub fn generate_auth_url(client_id: &str, worker_url: &str, state: &str) -> (r: String)
    ensures
        r@ == spec_auth_url(client_id@, worker_url@, state@),
{
    String::from_str("https://app.hubspot.com/oauth/authorize?client_id=").concat(
        client_id,
    ).concat("&redirect_uri=").concat(worker_url).concat("/oauth/callback&scope=").concat(
        "oauth%20crm.objects.contacts.read%20crm.objects.contacts.write%20crm.objects.companies.read%20crm.objects.companies.write%20crm.objects.deals.read%20crm.objects.deals.write%20crm.objects.custom.read%20crm.objects.custom.write%20crm.schemas.contacts.read%20crm.schemas.companies.read%20crm.schemas.deals.read%20crm.schemas.custom.read%20tickets%20files",
    ).concat("&state=").concat(state)
}

/// Relies on rand's `Rng::gen_range` over `0..n`: the result is below `n`.
/// Nothing else is assumed of the drawn value.
#[verifier::external_body]
fn random_below(n: usize) -> (r: usize)
    requires
        n > 0,
    ensures
        r < n,
{
    rand::Rng::gen_range(&mut rand::thread_rng(), 0..n)
}

/// The alphabet a state token draws from.
pub open spec fn spec_state_charset() -> Seq<char> {
    "ABCDEFGHIJKLMNOPQRSTUVWXYZabcdefghijklmnopqrstuvwxyz0123456789"@
}

/// Draw a fresh 32-character state token over letters and digits.
pub fn generate_state() -> (r: String)
    ensures
        r@.len() == 32,
        forall|i: int| 0 <= i < r@.len() ==> spec_state_charset().contains(#[trigger] r@[i]),
{
    let charset = "ABCDEFGHIJKLMNOPQRSTUVWXYZabcdefghijklmnopqrstuvwxyz0123456789";
    proof {
        reveal_strlit("ABCDEFGHIJKLMNOPQRSTUVWXYZabcdefghijklmnopqrstuvwxyz0123456789");
    }
    let mut out: Vec<char> = Vec::new();
    let mut i: usize = 0;
    while i < 32
        invariant
            0 <= i <= 32,
            out@.len() == i,
            charset@ == spec_state_charset(),
            charset@.len() == 62,
            forall|j: int| 0 <= j < i ==> spec_state_charset().contains(#[trigger] out@[j]),
        decreases 32 - i,
    {
        let idx = random_below(62);
        let c = charset.get_char(idx);
        proof {
            assert(spec_state_charset()[idx as int] == c);
        }
        out.push(c);
        i += 1;
    }
    crate::csvtext::chars_to_string(&out)
}

/// Whether a token must be refreshed: it carries an expiry and the clock is
/// within five minutes of it (or past it).
pub open spec fn spec_needs_refresh(expires_at: Option<i64>, now: i64) -> bool {
    match expires_at {
        Some(e) => now >= e - 300,
        None => false,
    }
}

/// Decide whether the stored token must be refreshed before use.
pub fn needs_refresh(expires_at: Option<i64>, now: i64) -> (r: bool)
    requires
        match expires_at {
            Some(e) => e > i64::MIN + 300,
            None => true,
        },
    ensures
        r == spec_needs_refresh(expires_at, now),
{
    match expires_at {
        Some(e) => now >= e - 300,
        None => false,
    }
}

} // verus!
