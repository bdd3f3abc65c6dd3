//! The registry's tag-list protocol: an anonymous request, and on a bearer
//! challenge one token request and one authenticated retry.
use vstd::prelude::*;

use crate::freshness::tag_views;
use crate::image::Image;
use crate::text::{
    chars_of, find_from, first_index, lemma_first_index, owned, push_text, range_equals,
    slice_of, split_fields, split_on, views_of,
};

verus! {

/// The client identifier sent to a registry's token endpoint.
pub const CLIENT_ID: &'static str = "Nomad-VMonitor";

/// The namespace of images that name none.
pub const DEFAULT_NAMESPACE: &'static str = "library";

/// The parameters of a registry's `WWW-Authenticate: Bearer ...` challenge.
#[derive(Debug, PartialEq)]
pub struct AuthChallenge {
    pub realm: String,
    pub service: String,
    pub scope: String,
}

pub struct AuthChallengeView {
    pub realm: Seq<char>,
    pub service: Seq<char>,
    pub scope: Seq<char>,
}

impl View for AuthChallenge {
    type V = AuthChallengeView;

    open spec fn view(&self) -> AuthChallengeView {
        AuthChallengeView { realm: self.realm@, service: self.service@, scope: self.scope@ }
    }
}

/// Why a token could not be had.
#[derive(Debug, Clone, Copy, PartialEq, Eq, Structural)]
pub enum AuthError {
    SendRequest,
    StatusCode(u16),
    LoadingBytes,
    MalformedBody,
    JwtToken,
    InvalidRealm,
}

/// Why a tag list could not be had.
#[derive(Debug, Clone, Copy, PartialEq, Eq, Structural)]
pub enum GetTagsError {
    AuthError(AuthError),
    FailedAuth,
    SendRequest,
    StatusCode(u16),
    LoadingBytes,
    MalformedBody,
}

pub open spec fn is_success(status: u16) -> bool {
    200 <= status && status <= 299
}

/// The characters of `s` but its double quotes.
pub open spec fn without_quotes(s: Seq<char>) -> Seq<char>
    decreases s.len(),
{
    if s.len() == 0 {
        s
    } else if s.last() == '"' {
        without_quotes(s.drop_last())
    } else {
        without_quotes(s.drop_last()).push(s.last())
    }
}

/// The value of the last `key=value` part whose key is `key`, unquoted.
pub open spec fn param_value(parts: Seq<Seq<char>>, key: Seq<char>) -> Option<Seq<char>>
    decreases parts.len(),
{
    if parts.len() == 0 {
        None
    } else {
        let p = parts.last();
        let e = first_index(p, '=');
        if e >= 0 && p.take(e) == key {
            Some(without_quotes(p.skip(e + 1)))
        } else {
            param_value(parts.drop_last(), key)
        }
    }
}

/// The comma-separated parameters after the scheme word of a challenge.
pub open spec fn challenge_params(header: Seq<char>) -> Option<Seq<Seq<char>>> {
    let i = first_index(header, ' ');
    if i < 0 {
        None
    } else {
        Some(split_on(header.skip(i + 1), ','))
    }
}

/// A challenge header read as realm, service and scope; all three must be there.
pub open spec fn parse_challenge_spec(header: Seq<char>) -> Option<AuthChallengeView> {
    match challenge_params(header) {
        None => None,
        Some(ps) => match (
            param_value(ps, "realm"@),
            param_value(ps, "service"@),
            param_value(ps, "scope"@),
        ) {
            (Some(realm), Some(service), Some(scope)) => Some(
                AuthChallengeView { realm, service, scope },
            ),
            _ => None,
        },
    }
}

fn unquoted(s: &Vec<char>, from: usize) -> (r: String)
    requires
        from <= s@.len(),
    ensures
        r@ == without_quotes(s@.skip(from as int)),
{
    let mut r = String::new();
    let mut i: usize = from;
    assert(s@.skip(from as int).take(0) =~= Seq::<char>::empty());
    while i < s.len()
        invariant
            from <= i <= s@.len(),
            r@ == without_quotes(s@.skip(from as int).take(i - from)),
        decreases s@.len() - i,
    {
        let ghost t = s@.skip(from as int);
        assert(t.take(i - from + 1).drop_last() =~= t.take(i - from));
        if s[i] != '"' {
            r.push(s[i]);
        }
        i = i + 1;
    }
    assert(s@.skip(from as int).take(i - from) =~= s@.skip(from as int));
    r
}

fn lookup_param(parts: &Vec<Vec<char>>, key: &str) -> (r: Option<String>)
    ensures
        opt_seq(r) == param_value(views_of(parts@), key@),
{
    let k = chars_of(key);
    let ghost all = views_of(parts@);
    let mut j: usize = parts.len();
    assert(all.take(j as int) =~= all);
    while j > 0
        invariant
            j <= parts@.len(),
            all == views_of(parts@),
            k@ == key@,
            param_value(all.take(j as int), key@) == param_value(all, key@),
        decreases j,
    {
        let ghost pre = all.take(j as int);
        assert(pre.len() == j);
        assert(pre.last() == parts@[j - 1]@);
        assert(pre.drop_last() =~= all.take(j - 1));
        let p = &parts[j - 1];
        proof {
            lemma_first_index(p@, '=');
            assert(p@.skip(0) =~= p@);
        }
        match find_from(p, 0, '=') {
            Some(e) => {
                let plen = p.len();
                assert(e < plen);
                assert(pre.last() == p@);
                if range_equals(p, 0, e, &k) {
                    assert(p@.take(e as int) =~= p@.subrange(0, e as int));
                    let v = unquoted(p, e + 1);
                    assert(first_index(pre.last(), '=') == e);
                    assert(pre.last().take(e as int) == key@);
                    assert(param_value(pre, key@) == Some(v@));
                    return Some(v);
                }
                assert(p@.take(e as int) =~= p@.subrange(0, e as int));
                assert(first_index(pre.last(), '=') == e);
                assert(pre.last().take(e as int) != key@);
            },
            None => {
                assert(first_index(pre.last(), '=') < 0);
                assert(p@.skip(0) =~= p@);
            },
        }
        j = j - 1;
    }
    None
}

pub open spec fn opt_seq(o: Option<String>) -> Option<Seq<char>> {
    match o {
        Some(s) => Some(s@),
        None => None,
    }
}

/// Reads a `WWW-Authenticate` header value as a bearer challenge.
pub fn parse_challenge(header: &str) -> (r: Option<AuthChallenge>)
    ensures
        match r {
            Some(c) => parse_challenge_spec(header@) == Some(c@),
            None => parse_challenge_spec(header@) is None,
        },
{
    let h = chars_of(header);
    proof {
        assert(h@.skip(0) =~= h@);
        lemma_first_index(h@, ' ');
    }
    let space = match find_from(&h, 0, ' ') {
        Some(i) => i,
        None => return None,
    };
    let hlen = h.len();
    assert(space < hlen);
    let rest = slice_of(&h, space + 1, hlen);
    assert(rest@ =~= h@.skip(space + 1));
    let parts = split_fields(&rest, ',');
    let realm = lookup_param(&parts, "realm");
    let service = lookup_param(&parts, "service");
    let scope = lookup_param(&parts, "scope");
    match (realm, service, scope) {
        (Some(realm), Some(service), Some(scope)) => Some(AuthChallenge { realm, service, scope }),
        _ => None,
    }
}

/// The `/v2/<namespace>/<name>/tags/list` endpoint of the image's registry.
pub open spec fn tags_url_spec(image: crate::image::ImageView) -> Seq<char> {
    let ns = match image.namespace {
        Some(n) => n,
        None => DEFAULT_NAMESPACE@,
    };
    "https://"@ + image.registry + "/v2/"@ + ns + "/"@ + image.name + "/tags/list"@
}

/// The tag-list endpoint for an image.
pub fn tags_url(image: &Image) -> (r: String)
    ensures
        r@ == tags_url_spec(image@),
{
    let mut url = owned("https://");
    push_text(&mut url, image.registry.as_str());
    push_text(&mut url, "/v2/");
    match &image.namespace {
        Some(n) => push_text(&mut url, n.as_str()),
        None => push_text(&mut url, DEFAULT_NAMESPACE),
    }
    push_text(&mut url, "/");
    push_text(&mut url, image.name.as_str());
    push_text(&mut url, "/tags/list");
    url
}

#[verifier::external_type_specification]
#[verifier::external_body]
pub struct ExJwtError(jwt::Error);

/// Whether `jwt::Token::parse_unverified` accepts a token text.
pub uninterp spec fn jwt_token_parses(token: Seq<char>) -> bool;

/// The string member `field` of the JSON object in `body`, if there is one.
pub uninterp spec fn json_string_field(body: Seq<u8>, field: Seq<char>) -> Option<Seq<char>>;

/// The text of the URL `base` with `pairs` appended to its query, if `base`
/// parses as a URL.
pub uninterp spec fn url_with_params(
    base: Seq<char>,
    pairs: Seq<(Seq<char>, Seq<char>)>,
) -> Option<Seq<char>>;

pub open spec fn pair_views(pairs: Seq<(String, String)>) -> Seq<(Seq<char>, Seq<char>)> {
    pairs.map_values(|p: (String, String)| (p.0@, p.1@))
}

/// Relies on `jwt::Token::parse_unverified`: it splits the token on `.` and
/// fails unless there are exactly three parts (header, claims, signature);
/// the signature is not checked.
#[verifier::external_body]
fn parse_unverified_token(token: &str) -> (r: Result<(), jwt::Error>)
    ensures
        r is Ok == jwt_token_parses(token@),
        r is Ok ==> split_on(token@, '.').len() == 3,
{
    let parsed: Result<jwt::Token<jwt::Header, serde_json::Value, jwt::Unverified>, jwt::Error> =
        jwt::Token::parse_unverified(token);
    parsed.map(|_| ())
}

/// Relies on `serde_json::from_slice` to read `body` as a JSON value, and on
/// `Value::get` and `Value::as_str` to take its member `field` as a string.
#[verifier::external_body]
fn json_string_member(body: &Vec<u8>, field: &str) -> (r: Option<String>)
    ensures
        opt_seq(r) == json_string_field(body@, field@),
{
    let value: serde_json::Value = serde_json::from_slice(body).ok()?;
    value.get(field)?.as_str().map(|s| s.to_string())
}

/// Relies on `reqwest::Url::parse_with_params`: it parses `base` and appends
/// the pairs, form-encoded, to the query; it fails where `base` is no URL.
#[verifier::external_body]
fn url_with_query(base: &str, pairs: &Vec<(String, String)>) -> (r: Option<String>)
    ensures
        opt_seq(r) == url_with_params(base@, pair_views(pairs@)),
{
    reqwest::Url::parse_with_params(base, pairs.iter()).ok().map(|u| u.to_string())
}

/// The token endpoint of a challenge, with service, scope and client id.
pub open spec fn token_url_spec(c: AuthChallengeView) -> Option<Seq<char>> {
    url_with_params(
        c.realm,
        seq![("service"@, c.service), ("scope"@, c.scope), ("client_id"@, CLIENT_ID@)],
    )
}

/// The URL to ask for a token; `None` where the realm is no URL.
pub fn token_url(c: &AuthChallenge) -> (r: Option<String>)
    ensures
        opt_seq(r) == token_url_spec(c@),
{
    let pairs = vec![
        (owned("service"), c.service.clone()),
        (owned("scope"), c.scope.clone()),
        (owned("client_id"), owned(CLIENT_ID)),
    ];
    assert(pair_views(pairs@) =~= seq![
        ("service"@, c.service@),
        ("scope"@, c.scope@),
        ("client_id"@, CLIENT_ID@),
    ]);
    url_with_query(c.realm.as_str(), &pairs)
}

/// What a token endpoint's answer gives: the token, or why there is none.
pub open spec fn token_outcome_spec(status: u16, body: Seq<u8>) -> Result<Seq<char>, AuthError> {
    if !is_success(status) {
        Err(AuthError::StatusCode(status))
    } else {
        match json_string_field(body, "token"@) {
            None => Err(AuthError::MalformedBody),
            Some(t) => if jwt_token_parses(t) {
                Ok(t)
            } else {
                Err(AuthError::JwtToken)
            },
        }
    }
}

/// Takes the bearer token out of a token endpoint's answer. The token must
/// have the form of a JWT; its signature is not checked.
pub fn accept_token(status: u16, body: &Vec<u8>) -> (r: Result<String, AuthError>)
    ensures
        match r {
            Ok(t) => token_outcome_spec(status, body@) == Ok::<Seq<char>, AuthError>(t@),
            Err(e) => token_outcome_spec(status, body@) == Err::<Seq<char>, AuthError>(e),
        },
{
    if !(200 <= status && status <= 299) {
        return Err(AuthError::StatusCode(status));
    }
    let token = match json_string_member(body, "token") {
        Some(t) => t,
        None => return Err(AuthError::MalformedBody),
    };
    match parse_unverified_token(token.as_str()) {
        Ok(()) => Ok(token),
        Err(_) => Err(AuthError::JwtToken),
    }
}

/// A registry's answer to a tag-list request: its status, its
/// `WWW-Authenticate` header, and the tags its body lists (`None` where the
/// body is no tag list).
#[derive(Debug)]
pub struct TagReply {
    pub status: u16,
    pub www_authenticate: Option<String>,
    pub tags: Option<Vec<String>>,
}

pub open spec fn opt_tags(o: Option<Vec<String>>) -> Option<Seq<Seq<char>>> {
    match o {
        Some(v) => Some(tag_views(v@)),
        None => None,
    }
}

/// What a tag-list answer means.
#[derive(Debug)]
pub enum FetchResult {
    Tags(Vec<String>),
    NeedsAuth(AuthChallenge),
    Failed(GetTagsError),
}

pub enum FetchResultView {
    Tags(Seq<Seq<char>>),
    NeedsAuth(AuthChallengeView),
    Failed(GetTagsError),
}

impl View for FetchResult {
    type V = FetchResultView;

    open spec fn view(&self) -> FetchResultView {
        match self {
            FetchResult::Tags(t) => FetchResultView::Tags(tag_views(t@)),
            FetchResult::NeedsAuth(c) => FetchResultView::NeedsAuth(c@),
            FetchResult::Failed(e) => FetchResultView::Failed(*e),
        }
    }
}

/// A success with a tag list gives the tags; a 401 with a readable bearer
/// challenge asks for authentication, one without it fails; any other status
/// fails with that status.
pub open spec fn classify_spec(
    status: u16,
    header: Option<Seq<char>>,
    tags: Option<Seq<Seq<char>>>,
) -> FetchResultView {
    if is_success(status) {
        match tags {
            Some(t) => FetchResultView::Tags(t),
            None => FetchResultView::Failed(GetTagsError::MalformedBody),
        }
    } else if status == 401 {
        match header {
            None => FetchResultView::Failed(GetTagsError::FailedAuth),
            Some(h) => match parse_challenge_spec(h) {
                Some(c) => FetchResultView::NeedsAuth(c),
                None => FetchResultView::Failed(GetTagsError::FailedAuth),
            },
        }
    } else {
        FetchResultView::Failed(GetTagsError::StatusCode(status))
    }
}

/// Reads a registry's answer to a tag-list request.
pub fn classify_reply(reply: TagReply) -> (r: FetchResult)
    ensures
        r@ == classify_spec(reply.status, opt_seq(reply.www_authenticate), opt_tags(reply.tags)),
{
    if 200 <= reply.status && reply.status <= 299 {
        match reply.tags {
            Some(t) => FetchResult::Tags(t),
            None => FetchResult::Failed(GetTagsError::MalformedBody),
        }
    } else if reply.status == 401 {
        match reply.www_authenticate {
            None => FetchResult::Failed(GetTagsError::FailedAuth),
            Some(h) => match parse_challenge(h.as_str()) {
                Some(c) => FetchResult::NeedsAuth(c),
                None => FetchResult::Failed(GetTagsError::FailedAuth),
            },
        }
    } else {
        FetchResult::Failed(GetTagsError::StatusCode(reply.status))
    }
}

/// An answer to the request that the protocol sent last.
#[derive(Debug)]
pub enum Reply {
    /// The registry answered a tag-list request.
    Tags(TagReply),
    /// The token endpoint answered with a status and a body.
    Token { status: u16, body: Vec<u8> },
    /// The request could not be sent.
    SendFailed,
    /// The answer's body could not be read.
    LoadFailed,
}

pub enum ReplyView {
    Tags { status: u16, header: Option<Seq<char>>, tags: Option<Seq<Seq<char>>> },
    Token { status: u16, body: Seq<u8> },
    SendFailed,
    LoadFailed,
}

impl View for Reply {
    type V = ReplyView;

    open spec fn view(&self) -> ReplyView {
        match self {
            Reply::Tags(t) => ReplyView::Tags {
                status: t.status,
                header: opt_seq(t.www_authenticate),
                tags: opt_tags(t.tags),
            },
            Reply::Token { status, body } => ReplyView::Token { status: *status, body: body@ },
            Reply::SendFailed => ReplyView::SendFailed,
            Reply::LoadFailed => ReplyView::LoadFailed,
        }
    }
}

/// What the protocol asks for next.
#[derive(Debug)]
pub enum Step {
    /// Request the tag list at `url`, with the bearer token if there is one.
    SendTags { url: String, token: Option<String> },
    /// Request a token at `url`.
    SendToken { url: String },
    /// The protocol is over.
    Finish(Result<Vec<String>, GetTagsError>),
}

pub enum StepView {
    SendTags { url: Seq<char>, token: Option<Seq<char>> },
    SendToken { url: Seq<char> },
    Finish(Result<Seq<Seq<char>>, GetTagsError>),
}

impl View for Step {
    type V = StepView;

    open spec fn view(&self) -> StepView {
        match self {
            Step::SendTags { url, token } => StepView::SendTags { url: url@, token: opt_seq(*token) },
            Step::SendToken { url } => StepView::SendToken { url: url@ },
            Step::Finish(Ok(t)) => StepView::Finish(Ok(tag_views(t@))),
            Step::Finish(Err(e)) => StepView::Finish(Err(*e)),
        }
    }
}

/// Where the protocol stands for one image; `url` is its tag-list endpoint.
#[derive(Debug)]
pub enum TagFetch {
    /// The anonymous request is out.
    Anonymous { url: String },
    /// The token request is out.
    AwaitingToken { url: String },
    /// The request with the token is out.
    Retrying { url: String },
    Done,
}

pub enum TagFetchView {
    Anonymous { url: Seq<char> },
    AwaitingToken { url: Seq<char> },
    Retrying { url: Seq<char> },
    Done,
}

impl View for TagFetch {
    type V = TagFetchView;

    open spec fn view(&self) -> TagFetchView {
        match self {
            TagFetch::Anonymous { url } => TagFetchView::Anonymous { url: url@ },
            TagFetch::AwaitingToken { url } => TagFetchView::AwaitingToken { url: url@ },
            TagFetch::Retrying { url } => TagFetchView::Retrying { url: url@ },
            TagFetch::Done => TagFetchView::Done,
        }
    }
}

/// Whether `reply` answers the request that `state` has out.
pub open spec fn accepts_spec(state: TagFetchView, reply: ReplyView) -> bool {
    match state {
        TagFetchView::Anonymous { .. } | TagFetchView::Retrying { .. } => !(reply is Token),
        TagFetchView::AwaitingToken { .. } => !(reply is Tags),
        TagFetchView::Done => false,
    }
}

pub open spec fn finish(r: Result<Seq<Seq<char>>, GetTagsError>) -> (TagFetchView, StepView) {
    (TagFetchView::Done, StepView::Finish(r))
}

/// One move of the protocol. A tag-list answer ends it, unless the anonymous
/// request met a challenge: then a token is asked for once. A token ends in
/// one retry with it, and a challenge on that retry fails the whole fetch.
pub open spec fn advance_spec(state: TagFetchView, reply: ReplyView) -> (TagFetchView, StepView) {
    match state {
        TagFetchView::AwaitingToken { url } => match reply {
            ReplyView::Token { status, body } => match token_outcome_spec(status, body) {
                Ok(t) => (TagFetchView::Retrying { url }, StepView::SendTags { url, token: Some(t) }),
                Err(e) => finish(Err(GetTagsError::AuthError(e))),
            },
            ReplyView::SendFailed => finish(Err(GetTagsError::AuthError(AuthError::SendRequest))),
            ReplyView::LoadFailed => finish(Err(GetTagsError::AuthError(AuthError::LoadingBytes))),
            ReplyView::Tags { .. } => finish(Err(GetTagsError::FailedAuth)),
        },
        TagFetchView::Anonymous { url } => match reply {
            ReplyView::Tags { status, header, tags } => match classify_spec(status, header, tags) {
                FetchResultView::Tags(t) => finish(Ok(t)),
                FetchResultView::Failed(e) => finish(Err(e)),
                FetchResultView::NeedsAuth(c) => match token_url_spec(c) {
                    Some(u) => (TagFetchView::AwaitingToken { url }, StepView::SendToken { url: u }),
                    None => finish(Err(GetTagsError::AuthError(AuthError::InvalidRealm))),
                },
            },
            ReplyView::SendFailed => finish(Err(GetTagsError::SendRequest)),
            ReplyView::LoadFailed => finish(Err(GetTagsError::LoadingBytes)),
            ReplyView::Token { .. } => finish(Err(GetTagsError::FailedAuth)),
        },
        TagFetchView::Retrying { url } => match reply {
            ReplyView::Tags { status, header, tags } => match classify_spec(status, header, tags) {
                FetchResultView::Tags(t) => finish(Ok(t)),
                FetchResultView::Failed(e) => finish(Err(e)),
                FetchResultView::NeedsAuth(_) => finish(Err(GetTagsError::FailedAuth)),
            },
            ReplyView::SendFailed => finish(Err(GetTagsError::SendRequest)),
            ReplyView::LoadFailed => finish(Err(GetTagsError::LoadingBytes)),
            ReplyView::Token { .. } => finish(Err(GetTagsError::FailedAuth)),
        },
        TagFetchView::Done => finish(Err(GetTagsError::FailedAuth)),
    }
}

impl TagFetch {
    /// Starts fetching the tags of `image` with an anonymous request.
    pub fn start(image: &Image) -> (r: (TagFetch, Step))
        ensures
            r.0@ == (TagFetchView::Anonymous { url: tags_url_spec(image@) }),
            r.1@ == (StepView::SendTags { url: tags_url_spec(image@), token: None }),
    {
        let url = tags_url(image);
        (TagFetch::Anonymous { url: url.clone() }, Step::SendTags { url, token: None })
    }

    /// Whether `reply` answers the request that is out.
    pub fn accepts(&self, reply: &Reply) -> (r: bool)
        ensures
            r == accepts_spec(self@, reply@),
    {
        match self {
            TagFetch::Anonymous { .. } | TagFetch::Retrying { .. } => !matches!(reply, Reply::Token { .. }),
            TagFetch::AwaitingToken { .. } => !matches!(reply, Reply::Tags(_)),
            TagFetch::Done => false,
        }
    }

    /// Takes the answer to the request that is out and says what comes next.
    pub fn advance(self, reply: Reply) -> (r: (TagFetch, Step))
        requires
            accepts_spec(self@, reply@),
        ensures
            (r.0@, r.1@) == advance_spec(self@, reply@),
    {
        match self {
            TagFetch::AwaitingToken { url } => match reply {
                Reply::Token { status, body } => match accept_token(status, &body) {
                    Ok(t) => (TagFetch::Retrying { url: url.clone() }, Step::SendTags { url, token: Some(t) }),
                    Err(e) => (TagFetch::Done, Step::Finish(Err(GetTagsError::AuthError(e)))),
                },
                Reply::SendFailed => (
                    TagFetch::Done,
                    Step::Finish(Err(GetTagsError::AuthError(AuthError::SendRequest))),
                ),
                _ => (
                    TagFetch::Done,
                    Step::Finish(Err(GetTagsError::AuthError(AuthError::LoadingBytes))),
                ),
            },
            TagFetch::Anonymous { url } => match reply {
                Reply::Tags(t) => match classify_reply(t) {
                    FetchResult::Tags(tags) => (TagFetch::Done, Step::Finish(Ok(tags))),
                    FetchResult::Failed(e) => (TagFetch::Done, Step::Finish(Err(e))),
                    FetchResult::NeedsAuth(c) => match token_url(&c) {
                        Some(u) => (TagFetch::AwaitingToken { url }, Step::SendToken { url: u }),
                        None => (
                            TagFetch::Done,
                            Step::Finish(Err(GetTagsError::AuthError(AuthError::InvalidRealm))),
                        ),
                    },
                },
                Reply::SendFailed => (TagFetch::Done, Step::Finish(Err(GetTagsError::SendRequest))),
                _ => (TagFetch::Done, Step::Finish(Err(GetTagsError::LoadingBytes))),
            },
            TagFetch::Retrying { .. } => match reply {
                Reply::Tags(t) => match classify_reply(t) {
                    FetchResult::Tags(tags) => (TagFetch::Done, Step::Finish(Ok(tags))),
                    FetchResult::Failed(e) => (TagFetch::Done, Step::Finish(Err(e))),
                    FetchResult::NeedsAuth(_) => (TagFetch::Done, Step::Finish(Err(GetTagsError::FailedAuth))),
                },
                Reply::SendFailed => (TagFetch::Done, Step::Finish(Err(GetTagsError::SendRequest))),
                _ => (TagFetch::Done, Step::Finish(Err(GetTagsError::LoadingBytes))),
            },
            TagFetch::Done => (TagFetch::Done, Step::Finish(Err(GetTagsError::FailedAuth))),
        }
    }
}

/// How many requests the protocol may still send from a state.
pub open spec fn requests_left(state: TagFetchView) -> nat {
    match state {
        TagFetchView::Anonymous { .. } => 2,
        TagFetchView::AwaitingToken { .. } => 1,
        TagFetchView::Retrying { .. } => 0,
        TagFetchView::Done => 0,
    }
}

/// The protocol never loops: every move sends at most one more request, and
/// fewer remain after it; a token is asked for only after the anonymous
/// request, and no move leads back to it.
pub proof fn lemma_fetch_is_bounded(state: TagFetchView, reply: ReplyView)
    requires
        accepts_spec(state, reply),
    ensures
        ({
            let (next, step) = advance_spec(state, reply);
            &&& !(next is Anonymous)
            &&& step is SendToken ==> state is Anonymous && next is AwaitingToken
            &&& step is SendTags ==> state is AwaitingToken && next is Retrying
            &&& step is Finish <==> next is Done
            &&& !(step is Finish) ==> requests_left(next) < requests_left(state)
        }),
{
}

/// A challenged anonymous request leads to exactly one token request and
/// one retry with that token; a second 401 on the retry ends the fetch with
/// `FailedAuth`.
pub proof fn lemma_single_auth_round(
    url: Seq<char>,
    header: Seq<char>,
    token_status: u16,
    token_body: Seq<u8>,
    retry: ReplyView,
)
    requires
        parse_challenge_spec(header) matches Some(c) && token_url_spec(c) is Some,
        token_outcome_spec(token_status, token_body) is Ok,
        retry matches ReplyView::Tags { status, .. } && status == 401,
    ensures
        ({
            let c = parse_challenge_spec(header)->0;
            let first = ReplyView::Tags { status: 401, header: Some(header), tags: None };
            let (s1, a1) = advance_spec(TagFetchView::Anonymous { url }, first);
            let token = ReplyView::Token { status: token_status, body: token_body };
            let (s2, a2) = advance_spec(s1, token);
            let (s3, a3) = advance_spec(s2, retry);
            &&& s1 == (TagFetchView::AwaitingToken { url })
            &&& a1 == (StepView::SendToken { url: token_url_spec(c)->0 })
            &&& s2 == (TagFetchView::Retrying { url })
            &&& a2 == (StepView::SendTags {
                url,
                token: Some(token_outcome_spec(token_status, token_body)->Ok_0),
            })
            &&& s3 == TagFetchView::Done
            &&& a3 == StepView::Finish(Err(GetTagsError::FailedAuth))
        }),
{
}

} // verus!
