use vstd::prelude::*;
use magic_wormhole::transit;
use crate::code::string_views;

verus! {

#[verifier::external_type_specification]
#[verifier::external_body]
pub struct ExRelayHint(transit::RelayHint);

/// The application id under which both sides meet on the rendezvous server.
pub open spec fn transfer_app_id_spec() -> Seq<char> {
    "lothar.com/wormhole/text-or-file-xfer"@
}

/// The public rendezvous server.
pub open spec fn rendezvous_server_spec() -> Seq<char> {
    "ws://relay.magic-wormhole.io:4000/v1"@
}

/// The public transit relay.
pub open spec fn relay_server_spec() -> Seq<char> {
    "tcp://transit.magic-wormhole.io:4001"@
}

/// Relies on magic_wormhole::transfer::APPID, the application id of file
/// transfer, to give this text.
#[verifier::external_body]
fn transfer_app_id() -> (r: String)
    ensures
        r@ == transfer_app_id_spec(),
{
    let id: &str = magic_wormhole::transfer::APPID.as_ref();
    id.to_string()
}

/// Relies on magic_wormhole::rendezvous::DEFAULT_RENDEZVOUS_SERVER to give
/// this address.
#[verifier::external_body]
fn rendezvous_server() -> (r: String)
    ensures
        r@ == rendezvous_server_spec(),
{
    magic_wormhole::rendezvous::DEFAULT_RENDEZVOUS_SERVER.to_string()
}

/// Relies on magic_wormhole::transit::DEFAULT_RELAY_SERVER to give this
/// address.
#[verifier::external_body]
fn relay_server() -> (r: String)
    ensures
        r@ == relay_server_spec(),
{
    transit::DEFAULT_RELAY_SERVER.to_string()
}

/// Whether the wormhole library makes a relay hint of this text: it must
/// read as a URL, and be a `tcp` URL with host and port or a `ws` or `wss`
/// URL.
pub uninterp spec fn relay_hint_accepted(url: Seq<char>) -> bool;

/// Relies on url::Url's `FromStr` and on transit::RelayHint::from_urls,
/// which together turn the text of one URL into a relay hint or refuse it;
/// the outcome depends on the text alone.
#[verifier::external_body]
fn relay_hint(url: &str) -> (r: Option<transit::RelayHint>)
    ensures
        r is Some <==> relay_hint_accepted(url@),
{
    match url.parse() {
        Ok(u) => transit::RelayHint::from_urls(None, [u]).ok(),
        Err(_) => None,
    }
}

/// Where sessions find the rendezvous server, under which application id,
/// and which transit relays they offer to the peer.
pub struct SessionConfig {
    pub app_id: String,
    pub rendezvous_url: String,
    /// The relays configured; the public relay stands in when there is none.
    pub relay_urls: Vec<String>,
}

/// The relay at `index` of the relays to offer was refused as a hint.
#[derive(Debug, Clone, Copy, PartialEq, Eq, Structural)]
pub struct BadRelayUrl {
    pub index: usize,
}

impl SessionConfig {
    /// The relays offered to the peer: those configured, or the public relay
    /// when none is, so that the set is never empty.
    pub open spec fn relay_list(&self) -> Seq<Seq<char>> {
        if self.relay_urls@.len() == 0 {
            seq![relay_server_spec()]
        } else {
            string_views(self.relay_urls@)
        }
    }

    /// The public servers of magic wormhole, with no relay of its own.
    pub fn default_config() -> (r: SessionConfig)
        ensures
            r.app_id@ == transfer_app_id_spec(),
            r.rendezvous_url@ == rendezvous_server_spec(),
            r.relay_urls@.len() == 0,
    {
        SessionConfig {
            app_id: transfer_app_id(),
            rendezvous_url: rendezvous_server(),
            relay_urls: Vec::new(),
        }
    }

    /// The relays offered to the peer, never none.
    pub fn relay_urls(&self) -> (r: Vec<String>)
        ensures
            string_views(r@) == self.relay_list(),
            r@.len() >= 1,
    {
        let n = self.relay_urls.len();
        let mut r: Vec<String> = Vec::new();
        if n == 0 {
            r.push(relay_server());
            proof {
                assert(string_views(r@) =~= seq![relay_server_spec()]);
            }
            return r;
        }
        let mut i: usize = 0;
        while i < n
            invariant
                n == self.relay_urls@.len(),
                i <= n,
                string_views(r@) =~= string_views(self.relay_urls@).take(i as int),
            decreases n - i,
        {
            let ghost before = r@;
            let u = self.relay_urls[i].clone();
            r.push(u);
            proof {
                assert(string_views(r@) =~= string_views(before).push(u@));
            }
            i = i + 1;
        }
        proof {
            assert(string_views(self.relay_urls@).take(n as int) =~= string_views(
                self.relay_urls@,
            ));
        }
        r
    }
}

/// The relay hints handed to the wormhole library, one per relay of
/// `config`; the first relay that is refused as a hint is reported.
pub fn gen_relay_hints(config: &SessionConfig) -> (r: Result<Vec<transit::RelayHint>, BadRelayUrl>)
    ensures
        r is Ok <==> forall|i: int|
            0 <= i < config.relay_list().len() ==> relay_hint_accepted(
                #[trigger] config.relay_list()[i],
            ),
        r matches Ok(v) ==> v@.len() == config.relay_list().len() && v@.len() >= 1,
        r matches Err(e) ==> e.index < config.relay_list().len() && !relay_hint_accepted(
            config.relay_list()[e.index as int],
        ) && forall|j: int| 0 <= j < e.index ==> relay_hint_accepted(#[trigger] config.relay_list()[j]),
{
    let urls = config.relay_urls();
    let n = urls.len();
    let mut hints: Vec<transit::RelayHint> = Vec::new();
    let mut i: usize = 0;
    while i < n
        invariant
            n == urls@.len(),
            string_views(urls@) == config.relay_list(),
            i <= n,
            hints@.len() == i,
            forall|j: int| 0 <= j < i ==> relay_hint_accepted(#[trigger] config.relay_list()[j]),
        decreases n - i,
    {
        proof {
            assert(config.relay_list()[i as int] == urls@[i as int]@);
        }
        match relay_hint(urls[i].as_str()) {
            Some(h) => hints.push(h),
            None => {
                return Err(BadRelayUrl { index: i });
            },
        }
        i = i + 1;
    }
    Ok(hints)
}

} // verus!
