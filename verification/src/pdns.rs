//! The upstream resolver's answer, as published by its JSON API, and the
//! request that asks for it.

use vstd::prelude::*;
use vstd::string::StringExecFns;
use rand::{OsRng, Rng};
use reqwest::Url;

verus! {

/// Time to live, in seconds, of an answer that arrives without one.
pub const DEFAULT_TTL: u32 = 180;

/// One entry of the question echo in an upstream answer.
#[derive(Debug)]
pub struct DnsQuestion {
    pub name: String,
    pub typ: u16,
}

/// One resource record of an upstream answer. The grammar of `data` depends
/// on `typ`.
#[derive(Debug)]
pub struct DnsAnswer {
    pub name: String,
    pub typ: u16,
    pub ttl: Option<u32>,
    pub data: String,
}

/// The upstream answer to one lookup.
#[derive(Debug)]
pub struct DnsResponse {
    pub status: u8,
    pub truncated: bool,
    pub recursion_desired: bool,
    pub recursion_available: bool,
    pub dnssec_validated: bool,
    pub dnssec_disabled: bool,
    pub question: Vec<DnsQuestion>,
    pub answer: Option<Vec<DnsAnswer>>,
    pub comment: Option<String>,
}

/// The time to live that a record is given: its own, or the default.
pub open spec fn effective_ttl(ttl: Option<u32>) -> u32 {
    match ttl {
        Some(t) => t,
        None => DEFAULT_TTL,
    }
}

impl DnsAnswer {
    /// The record's time to live, [`DEFAULT_TTL`] where upstream sent none.
    pub fn ttl_or_default(&self) -> (t: u32)
        ensures
            t == effective_ttl(self.ttl),
    {
        match self.ttl {
            Some(t) => t,
            None => DEFAULT_TTL,
        }
    }
}

/// The resolver's JSON endpoint.
pub const API_PATH: &'static str = "https://dns.google.com/resolve";

/// The user agent that every request names.
pub const USER_AGENT: &'static str = "DnsOverHttpsProxy/1";

/// The longest padding that a request carries, in characters.
pub const MAX_PADDING: usize = 15;

/// The length of the padding that a random sample selects: its low four
/// bits.
pub fn padding_len(sample: u32) -> (n: usize)
    ensures
        n == sample % 16,
        n <= MAX_PADDING,
{
    (sample % 16) as usize
}

/// The decimal digits of `n`, most significant first, without leading
/// zeros.
pub open spec fn decimal_digits(n: nat) -> Seq<char>
    decreases n,
{
    if n < 10 {
        seq![(0x30 + n) as u8 as char]
    } else {
        decimal_digits(n / 10).push((0x30 + n % 10) as u8 as char)
    }
}

/// One decimal digit as text.
fn digit_text(d: u16) -> (s: &'static str)
    requires
        d < 10,
    ensures
        s@ == seq![(0x30 + d) as u8 as char],
{
    proof {
        reveal_strlit("0");
        reveal_strlit("1");
        reveal_strlit("2");
        reveal_strlit("3");
        reveal_strlit("4");
        reveal_strlit("5");
        reveal_strlit("6");
        reveal_strlit("7");
        reveal_strlit("8");
        reveal_strlit("9");
    }
    let s = if d == 0 {
        "0"
    } else if d == 1 {
        "1"
    } else if d == 2 {
        "2"
    } else if d == 3 {
        "3"
    } else if d == 4 {
        "4"
    } else if d == 5 {
        "5"
    } else if d == 6 {
        "6"
    } else if d == 7 {
        "7"
    } else if d == 8 {
        "8"
    } else {
        "9"
    };
    assert(s@ =~= seq![(0x30 + d) as u8 as char]);
    s
}

/// Writes a number in decimal.
pub fn decimal(n: u16) -> (s: String)
    ensures
        s@ == decimal_digits(n as nat),
    decreases n,
{
    if n < 10 {
        digit_text(n).to_owned()
    } else {
        let mut s = decimal(n / 10);
        s.append(digit_text(n % 10));
        s
    }
}

/// Whether `c` is an ASCII letter or digit.
pub open spec fn is_alphanumeric(c: char) -> bool {
    ('0' <= c <= '9') || ('A' <= c <= 'Z') || ('a' <= c <= 'z')
}

/// Whether `s` can serve as padding: at most fifteen ASCII letters and
/// digits.
pub open spec fn is_padding(s: Seq<char>) -> bool {
    s.len() <= MAX_PADDING && forall|i: int| 0 <= i < s.len() ==> is_alphanumeric(#[trigger] s[i])
}

/// The query parameters of a lookup, in order: the name, the type code in
/// decimal, and the padding.
pub open spec fn lookup_params(hostname: Seq<char>, qtype: u16, padding: Seq<char>) -> Seq<
    (Seq<char>, Seq<char>),
> {
    seq![
        ("name"@, hostname),
        ("type"@, decimal_digits(qtype as nat)),
        ("random_padding"@, padding),
    ]
}

/// What a list of parameters holds.
pub open spec fn params_view(params: Seq<(String, String)>) -> Seq<(Seq<char>, Seq<char>)> {
    params.map_values(|p: (String, String)| (p.0@, p.1@))
}

/// Builds the query parameters of a lookup.
pub fn build_params(hostname: &str, qtype: u16, padding: &str) -> (params: Vec<(String, String)>)
    ensures
        params_view(params@) == lookup_params(hostname@, qtype, padding@),
{
    let mut params: Vec<(String, String)> = Vec::new();
    params.push(("name".to_owned(), hostname.to_owned()));
    params.push(("type".to_owned(), decimal(qtype)));
    params.push(("random_padding".to_owned(), padding.to_owned()));
    proof {
        assert(params_view(params@) =~= lookup_params(hostname@, qtype, padding@));
    }
    params
}

/// The text of the URL that `base` and a list of query parameters make, as
/// `Url::parse_with_params` of the `url` crate builds it; `None` where it
/// rejects the base.
pub uninterp spec fn url_with_params(
    base: Seq<char>,
    params: Seq<(Seq<char>, Seq<char>)>,
) -> Option<Seq<char>>;

/// Builds a URL with `Url::parse_with_params` and hands out its text.
///
/// Nothing is claimed about the text, only that it depends on the base and
/// the parameters alone.
#[verifier::external_body]
fn make_url(base: &str, params: &Vec<(String, String)>) -> (r: Option<String>)
    ensures
        match r {
            Some(u) => url_with_params(base@, params_view(params@)) == Some(u@),
            None => url_with_params(base@, params_view(params@)) is None,
        },
{
    Url::parse_with_params(base, params.iter()).ok().map(|url| url.into_string())
}

/// The URL of the lookup of `hostname` and `qtype` with the given padding.
pub open spec fn lookup_url(hostname: Seq<char>, qtype: u16, padding: Seq<char>) -> Option<
    Seq<char>,
> {
    url_with_params(API_PATH@, lookup_params(hostname, qtype, padding))
}

/// Builds the URL that asks the resolver for `hostname` and `qtype`, with
/// `padding` as its padding parameter.
pub fn request_url(hostname: &str, qtype: u16, padding: &str) -> (r: Option<String>)
    ensures
        match r {
            Some(u) => lookup_url(hostname@, qtype, padding@) == Some(u@),
            None => lookup_url(hostname@, qtype, padding@) is None,
        },
{
    let params = build_params(hostname, qtype, padding);
    make_url(API_PATH, &params)
}

/// The operating system's random source, `OsRng` of the `rand` crate. It is
/// carried around and never looked into.
#[verifier::external_type_specification]
#[verifier::external_body]
pub struct ExOsRng(OsRng);

/// Opens the operating system's random source with `OsRng::new`.
#[verifier::external_body]
fn open_rng() -> Option<OsRng> {
    OsRng::new().ok()
}

/// Draws 32 random bits with `Rng::next_u32`. Nothing is known of them.
#[verifier::external_body]
fn draw_u32(rng: &mut OsRng) -> u32 {
    rng.next_u32()
}

/// Draws `n` random characters with `Rng::gen_ascii_chars`.
///
/// Claimed: the generator yields ASCII letters and digits without end, so
/// that exactly `n` of them are taken.
#[verifier::external_body]
fn draw_ascii(rng: &mut OsRng, n: usize) -> (s: String)
    ensures
        s@.len() == n,
        forall|i: int| 0 <= i < s@.len() ==> is_alphanumeric(#[trigger] s@[i]),
{
    rng.gen_ascii_chars().take(n).collect()
}

/// The request side of the upstream client: it owns the random source that
/// pads each request.
pub struct Pdns {
    rng: OsRng,
}

impl Pdns {
    /// Opens the client, `None` where the operating system offers no random
    /// source.
    pub fn new() -> Option<Pdns> {
        // Whether there is a source is for the operating system to say; what
        // becomes of its answer is `with_source`.
        let source = open_rng();
        Pdns::with_source(source)
    }

    /// Draws the padding of one request: up to fifteen random letters and
    /// digits, the length itself chosen at random.
    pub fn padding(&mut self) -> (s: String)
        ensures
            is_padding(s@),
    {
        let n = padding_len(draw_u32(&mut self.rng));
        draw_ascii(&mut self.rng, n)
    }

    /// Builds the URL of one lookup, with fresh padding.
    ///
    /// Whatever padding was drawn, the URL is that of [`lookup_url`] for
    /// some padding of at most fifteen letters and digits.
    pub fn lookup_request(&mut self, hostname: &str, qtype: u16) -> (r: Option<String>)
        ensures
            exists|padding: Seq<char>|
                #![trigger lookup_url(hostname@, qtype, padding)]
                is_padding(padding) && match r {
                    Some(u) => lookup_url(hostname@, qtype, padding) == Some(u@),
                    None => lookup_url(hostname@, qtype, padding) is None,
                },
    {
        let padding = self.padding();
        request_url(hostname, qtype, padding.as_str())
    }

    /// The random source that the client draws its padding from.
    pub closed spec fn source(&self) -> OsRng {
        self.rng
    }

    /// Makes a client of what opening the random source gave: a client that
    /// draws from that source, or none where there is no source.
    pub fn with_source(source: Option<OsRng>) -> (r: Option<Pdns>)
        ensures
            match source {
                Some(rng) => r matches Some(client) && client.source() == rng,
                None => r is None,
            },
    {
        match source {
            Some(rng) => Some(Pdns { rng }),
            None => None,
        }
    }
}

} // verus!
