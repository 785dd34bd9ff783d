//! Authentication of a player with the session server: what to ask, and
//! what to make of the answer. Asking is left to whoever can reach the
//! network.

use vstd::prelude::*;
use vstd::string::*;

verus! {

/// What the session server said of a player.
#[derive(Debug)]
pub enum PlayerAuthenticationStatus {
    /// The player is who they say; the identifier under which they are
    /// known.
    Authenticated(String),
    Unauthenticated,
    ServerError,
}

/// A `PlayerAuthenticationStatus` as values.
pub enum PlayerAuthenticationStatusView {
    Authenticated(Seq<char>),
    Unauthenticated,
    ServerError,
}

impl View for PlayerAuthenticationStatus {
    type V = PlayerAuthenticationStatusView;

    open spec fn view(&self) -> PlayerAuthenticationStatusView {
        match self {
            PlayerAuthenticationStatus::Authenticated(id) => {
                PlayerAuthenticationStatusView::Authenticated(id@)
            },
            PlayerAuthenticationStatus::Unauthenticated => {
                PlayerAuthenticationStatusView::Unauthenticated
            },
            PlayerAuthenticationStatus::ServerError => PlayerAuthenticationStatusView::ServerError,
        }
    }
}

/// A property of a player's profile, such as the skin.
#[derive(Debug)]
pub struct AuthenticationProperties {
    pub name: String,
    pub value: String,
    pub signature: String,
}

/// What the answer of the session server means, by its HTTP status.
#[derive(Clone, Copy, Debug, PartialEq, Eq, Structural)]
pub enum Answer {
    /// The body of the answer holds the profile of the player.
    Profile,
    /// The player has not joined through the account service.
    Unauthorized,
    /// An answer that the session server should not give.
    WeirdResponse,
    /// A status that reports a failure of the client or of the server.
    Failed,
}

/// What the answer of the session server means, by its HTTP status.
pub open spec fn spec_classify(status: u16) -> Answer {
    if 400 <= status < 600 {
        Answer::Failed
    } else if status == 200 {
        Answer::Profile
    } else if status == 204 {
        Answer::Unauthorized
    } else {
        Answer::WeirdResponse
    }
}

/// What the answer of the session server means, by its HTTP status.
pub fn classify(status: u16) -> (answer: Answer)
    ensures
        answer == spec_classify(status),
{
    if 400 <= status && status < 600 {
        Answer::Failed
    } else if status == 200 {
        Answer::Profile
    } else if status == 204 {
        Answer::Unauthorized
    } else {
        Answer::WeirdResponse
    }
}

/// The address to ask whether `username` has joined the server with the
/// hash `server_id`, from `ip` where one is given. The parts go in as they
/// are.
pub open spec fn spec_has_joined_url(
    username: Seq<char>,
    server_id: Seq<char>,
    ip: Option<Seq<char>>,
) -> Seq<char> {
    let base = "https://sessionserver.mojang.com/session/minecraft/hasJoined?username="@
        + username + "&serverId="@ + server_id;
    match ip {
        Some(ip) => base + "&ip="@ + ip,
        None => base,
    }
}

/// The address to ask whether `username` has joined the server with the
/// hash `server_id`.
pub fn has_joined_url(username: &str, server_id: &str, ip: Option<&str>) -> (url: String)
    ensures
        url@ == spec_has_joined_url(
            username@,
            server_id@,
            match ip {
                Some(ip) => Some(ip@),
                None => None,
            },
        ),
{
    let mut url = String::from_str(
        "https://sessionserver.mojang.com/session/minecraft/hasJoined?username=",
    );
    url.append(username);
    url.append("&serverId=");
    url.append(server_id);
    match ip {
        Some(ip) => {
            url.append("&ip=");
            url.append(ip);
        },
        None => {},
    }
    url
}

} // verus!
