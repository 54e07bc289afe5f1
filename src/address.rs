//! Server addresses: a host and a port, written `hostname:port`.

use vstd::prelude::*;
use vstd::string::*;
use crate::error::AddressError;

verus! {

/// The host of a server: a DNS name, or an IPv4 or IPv6 address.
#[derive(Clone, Debug, PartialEq, Eq)]
pub enum Host {
    /// A DNS domain name, as dot-separated labels.
    Domain(String),
    /// An IPv4 address, as its 32 bits, the first octet highest.
    Ipv4(u32),
    /// An IPv6 address, as its 128 bits, the first segment highest.
    Ipv6(u128),
}

/// The mathematical value of a host.
pub enum HostView {
    Domain(Seq<char>),
    Ipv4(u32),
    Ipv6(u128),
}

impl View for Host {
    type V = HostView;

    open spec fn view(&self) -> HostView {
        match self {
            Host::Domain(d) => HostView::Domain(d@),
            Host::Ipv4(a) => HostView::Ipv4(*a),
            Host::Ipv6(a) => HostView::Ipv6(*a),
        }
    }
}

/// The host that `url`'s host parser makes of a text, or `None` where it rejects the text.
pub uninterp spec fn parsed_host(s: Seq<char>) -> Option<HostView>;

/// The text of an IPv6 address in the form of RFC 5952, without brackets.
pub uninterp spec fn ipv6_text(a: u128) -> Seq<char>;

/// The character of a decimal digit.
pub open spec fn digit_char(d: nat) -> char {
    (('0' as nat) + d % 10) as char
}

/// The decimal text of `n`: no sign and no leading zero.
pub open spec fn decimal(n: nat) -> Seq<char>
    decreases n,
{
    if n < 10 {
        seq![digit_char(n)]
    } else {
        decimal(n / 10).push(digit_char(n % 10))
    }
}

/// An IPv4 address as four decimal octets separated by dots.
pub open spec fn dotted_quad(a: u32) -> Seq<char> {
    let n = a as nat;
    decimal(n / 0x1000000) + seq!['.'] + decimal((n / 0x10000) % 0x100) + seq!['.']
        + decimal((n / 0x100) % 0x100) + seq!['.'] + decimal(n % 0x100)
}

/// The canonical text of a host: a domain as it is, an IPv4 address dotted, an IPv6
/// address within brackets.
pub open spec fn host_text(h: HostView) -> Seq<char> {
    match h {
        HostView::Domain(d) => d,
        HostView::Ipv4(a) => dotted_quad(a),
        HostView::Ipv6(a) => seq!['['] + ipv6_text(a) + seq![']'],
    }
}

/// `url::ParseError`, declared so that the host parser's error can be carried.
#[verifier::external_type_specification]
#[verifier::external_body]
pub struct ExUrlParseError(url::ParseError);

/// Relies on `url::Host::parse`: a text in brackets is read as an IPv6 address, any other
/// is decoded and read as an IPv4 address or a domain name. Its variants are carried over
/// one to one, addresses as their bits.
#[verifier::external_body]
fn parse_host(s: &str) -> (r: Result<Host, url::ParseError>)
    ensures
        r is Ok <==> parsed_host(s@) is Some,
        r matches Ok(h) ==> parsed_host(s@) == Some(h@),
{
    match url::Host::parse(s) {
        Ok(url::Host::Domain(d)) => Ok(Host::Domain(d)),
        Ok(url::Host::Ipv4(a)) => Ok(Host::Ipv4(u32::from(a))),
        Ok(url::Host::Ipv6(a)) => Ok(Host::Ipv6(u128::from(a))),
        Err(e) => Err(e),
    }
}

/// Relies on the `Display` impl of `url::Host`: a domain is written as it is, an IPv4
/// address as four dotted decimal octets, an IPv6 address in brackets.
#[verifier::external_body]
fn render_host(h: &Host) -> (r: String)
    ensures
        h@ matches HostView::Domain(d) ==> r@ == d,
        h@ matches HostView::Ipv4(a) ==> r@ == dotted_quad(a),
        h@ matches HostView::Ipv6(a) ==> r@ == seq!['['] + ipv6_text(a) + seq![']'],
{
    let h: url::Host = match h {
        Host::Domain(d) => url::Host::Domain(d.clone()),
        Host::Ipv4(a) => url::Host::Ipv4((*a).into()),
        Host::Ipv6(a) => url::Host::Ipv6((*a).into()),
    };
    h.to_string()
}

/// Relies on the `Display` impl of `u16`: decimal digits, without sign or leading zero.
#[verifier::external_body]
fn render_port(n: u16) -> (r: String)
    ensures
        r@ == decimal(n as nat),
{
    n.to_string()
}

impl Host {
    /// The loopback IPv6 address, `::1`.
    pub fn localhost() -> (r: Host)
        ensures
            r@ == HostView::Ipv6(1),
    {
        Host::Ipv6(1)
    }

    /// The canonical text of the host, as sent in a `host` header.
    pub fn to_text(&self) -> (r: String)
        ensures
            r@ == host_text(self@),
    {
        render_host(self)
    }
}

/// The index of the last `c` in `s`, or `-1` where there is none.
pub open spec fn last_index_of(s: Seq<char>, c: char) -> int
    decreases s.len(),
{
    if s.len() == 0 {
        -1
    } else if s.last() == c {
        s.len() - 1
    } else {
        last_index_of(s.drop_last(), c)
    }
}

/// True of a decimal digit.
pub open spec fn is_digit(c: char) -> bool {
    '0' <= c && c <= '9'
}

/// The value of a text of decimal digits.
pub open spec fn digits_value(s: Seq<char>) -> nat
    decreases s.len(),
{
    if s.len() == 0 {
        0
    } else {
        digits_value(s.drop_last()) * 10 + ((s.last() as nat) - ('0' as nat)) as nat
    }
}

/// The text of a port without its optional leading `+`.
pub open spec fn port_digits(s: Seq<char>) -> Seq<char> {
    if s.len() > 0 && s[0] == '+' { s.drop_first() } else { s }
}

/// True of a text made of decimal digits only.
pub open spec fn all_digits(d: Seq<char>) -> bool {
    forall|i: int| 0 <= i < d.len() ==> is_digit(#[trigger] d[i])
}

/// The port that a text denotes: an optional `+`, then one or more decimal digits, with a
/// value below 65536.
pub open spec fn port_value(s: Seq<char>) -> Option<u16> {
    let d = port_digits(s);
    if d.len() > 0 && all_digits(d) && digits_value(d) <= u16::MAX {
        Some(digits_value(d) as u16)
    } else {
        None
    }
}

/// What parsing `hostname:port` gives: the text is split at its last `:`, the host is
/// parsed first, then the port.
pub open spec fn parse_address(s: Seq<char>) -> Result<(HostView, u16), AddressError> {
    let i = last_index_of(s, ':');
    if i < 0 {
        Err(AddressError::MissingPort)
    } else {
        match parsed_host(s.subrange(0, i)) {
            None => Err(AddressError::InvalidHost),
            Some(h) => match port_value(s.subrange(i + 1, s.len() as int)) {
                None => Err(AddressError::InvalidPort),
                Some(p) => Ok((h, p)),
            },
        }
    }
}

/// The address of the server to be load-tested.
#[derive(Clone, Debug, PartialEq, Eq)]
pub struct Server {
    /// The host name.
    pub host: Host,
    /// The port number.
    pub port: u16,
}

/// Parses the port text: an optional `+` and decimal digits, below 65536.
fn parse_port(s: &str) -> (r: Option<u16>)
    ensures
        r == port_value(s@),
{
    let n = s.unicode_len();
    let mut i: usize = 0;
    if n > 0 && s.get_char(0) == '+' {
        i = 1;
    }
    let ghost d = port_digits(s@);
    let start = i;
    if start == n {
        return None;
    }
    let mut value: u32 = 0;
    while i < n
        invariant
            n == s@.len(),
            start <= i <= n,
            start == 0 || start == 1,
            start < n,
            d == s@.subrange(start as int, n as int),
            d == port_digits(s@),
            forall|j: int| 0 <= j < i - start ==> is_digit(#[trigger] d[j]),
            value == digits_value(d.subrange(0, i - start)),
            value <= u16::MAX,
        decreases n - i,
    {
        let c = s.get_char(i);
        proof {
            let sub = d.subrange(0, i - start + 1);
            assert(sub.drop_last() =~= d.subrange(0, i - start));
            assert(sub.last() == c);
        }
        assert(d[i - start] == c);
        if !('0' <= c && c <= '9') {
            assert(!is_digit(d[i - start]));
            return None;
        }
        let next = value * 10 + ((c as u32) - ('0' as u32));
        if next > 65535 {
            proof {
                if all_digits(d) {
                    lemma_digits_prefix_grows(d, (i - start + 1) as int);
                }
            }
            return None;
        }
        value = next;
        i = i + 1;
    }
    assert(d.subrange(0, n - start) =~= d);
    Some(value as u16)
}

/// The value of a text of digits is at least that of any of its prefixes.
proof fn lemma_digits_prefix_grows(d: Seq<char>, k: int)
    requires
        0 <= k <= d.len(),
        all_digits(d),
    ensures
        digits_value(d.subrange(0, k)) <= digits_value(d),
    decreases d.len() - k,
{
    if k < d.len() {
        lemma_digits_prefix_grows(d, k + 1);
        let sub = d.subrange(0, k + 1);
        assert(sub.drop_last() =~= d.subrange(0, k));
        assert(is_digit(d[k]));
    } else {
        assert(d.subrange(0, k) =~= d);
    }
}

impl Server {
    /// Parses a server address given as `hostname:port`; the last `:` splits host and port,
    /// and an IPv6 address is written in brackets.
    pub fn parse(s: &str) -> (r: Result<Server, AddressError>)
        ensures
            r matches Ok(srv) ==> parse_address(s@) == Ok::<(HostView, u16), AddressError>((srv.host@, srv.port)),
            r matches Err(e) ==> parse_address(s@) == Err::<(HostView, u16), AddressError>(e),
    {
        let n = s.unicode_len();
        let mut i: usize = n;
        assert(s@.subrange(0, n as int) =~= s@);
        while i > 0 && s.get_char(i - 1) != ':'
            invariant
                n == s@.len(),
                i <= n,
                last_index_of(s@, ':') == last_index_of(s@.subrange(0, i as int), ':'),
            decreases i,
        {
            proof {
                let sub = s@.subrange(0, i as int);
                assert(sub.drop_last() =~= s@.subrange(0, i - 1));
            }
            i = i - 1;
        }
        proof {
            let sub = s@.subrange(0, i as int);
            if i > 0 {
                assert(sub.last() == ':');
            } else {
                assert(sub.len() == 0);
            }
        }
        if i == 0 {
            return Err(AddressError::MissingPort);
        }
        let host = match parse_host(s.substring_char(0, i - 1)) {
            Ok(h) => h,
            Err(_) => {
                return Err(AddressError::InvalidHost);
            },
        };
        match parse_port(s.substring_char(i, n)) {
            Some(port) => Ok(Server { host, port }),
            None => Err(AddressError::InvalidPort),
        }
    }

    /// The canonical `hostname:port` text of the address.
    pub fn render(&self) -> (r: String)
        ensures
            r@ == host_text(self.host@) + seq![':'] + decimal(self.port as nat),
    {
        let mut out = render_host(&self.host);
        out.append(":");
        let port = render_port(self.port);
        out.append(port.as_str());
        proof {
            reveal_strlit(":");
        }
        out
    }
}

/// The decimal text of a number is a non-empty run of digits whose value is the number.
pub proof fn lemma_decimal(n: nat)
    ensures
        decimal(n).len() > 0,
        all_digits(decimal(n)),
        digits_value(decimal(n)) == n,
    decreases n,
{
    let c = digit_char(n % 10);
    assert((c as nat) - ('0' as nat) == n % 10);
    if n < 10 {
        let t = decimal(n);
        assert(t.drop_last() =~= Seq::<char>::empty());
        assert(t.last() == c);
        assert(digits_value(t) == digits_value(t.drop_last()) * 10 + ((c as nat) - ('0' as nat)) as nat);
    } else {
        lemma_decimal(n / 10);
        let t = decimal(n);
        assert(t.drop_last() =~= decimal(n / 10));
        assert(t.last() == c);
        assert(digits_value(t) == digits_value(t.drop_last()) * 10 + ((c as nat) - ('0' as nat)) as nat);
        assert((n / 10) * 10 + n % 10 == n) by (nonlinear_arith);
        assert(all_digits(t)) by {
            assert forall|i: int| 0 <= i < t.len() implies is_digit(#[trigger] t[i]) by {
                if i < t.len() - 1 {
                    assert(t[i] == decimal(n / 10)[i]);
                }
            }
        }
    }
}

/// In a text with no `:` after a given one, that one is the last.
proof fn lemma_last_colon(a: Seq<char>, b: Seq<char>)
    requires
        forall|i: int| 0 <= i < b.len() ==> #[trigger] b[i] != ':',
    ensures
        last_index_of(a + seq![':'] + b, ':') == a.len(),
    decreases b.len(),
{
    let s = a + seq![':'] + b;
    if b.len() == 0 {
        assert(s.last() == ':');
    } else {
        lemma_last_colon(a, b.drop_last());
        assert(s.drop_last() =~= a + seq![':'] + b.drop_last());
        assert(s.last() == b.last());
    }
}

/// Rendering a parsed address gives back the text where the host was written in its
/// canonical form and the port in decimal without leading zeros.
pub proof fn lemma_address_round_trip(h: Seq<char>, n: u16)
    requires
        parsed_host(h) is Some,
        host_text(parsed_host(h)->Some_0) == h,
    ensures
        ({
            let s = h + seq![':'] + decimal(n as nat);
            &&& parse_address(s) == Ok::<(HostView, u16), AddressError>((parsed_host(h)->Some_0, n))
            &&& host_text(parsed_host(h)->Some_0) + seq![':'] + decimal(n as nat) == s
        }),
{
    let d = decimal(n as nat);
    let s = h + seq![':'] + d;
    lemma_decimal(n as nat);
    assert forall|i: int| 0 <= i < d.len() implies #[trigger] d[i] != ':' by {
        assert(is_digit(d[i]));
    }
    lemma_last_colon(h, d);
    assert(s.subrange(0, h.len() as int) =~= h);
    assert(s.subrange(h.len() as int + 1, s.len() as int) =~= d);
    assert(is_digit(d[0]));
    assert(port_digits(d) == d);
}

} // verus!
