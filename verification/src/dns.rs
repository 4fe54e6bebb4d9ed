//! The reverse-DNS cache: an IP-to-hostname map merged from the
//! operating system's resolver sources, first writer wins.

use vstd::prelude::*;
use vstd::string::StrSliceExecFns;
use vstd::string::StringExecFns;

use crate::net::{spec_parse_ipv4, spec_parse_ipv6, parse_ipv4, parse_ipv6, IpAddress};
use crate::text::{
    find_char, spec_find_char, spec_starts_with, spec_trim_text, str_starts_with, trimmed_bounds,
};

verus! {

/// A reverse-DNS map. Entries are kept in insertion order; an IP that
/// is already present is never overwritten, so the first recorded
/// hostname for an IP is the one the cache answers with. The cache
/// never shrinks within a session.
pub struct DnsCache {
    pub entries: Vec<(IpAddress, String)>,
}

/// First-match lookup in an association sequence.
pub open spec fn dns_lookup(m: Seq<(IpAddress, Seq<char>)>, ip: IpAddress) -> Option<Seq<char>>
    decreases m.len(),
{
    if m.len() == 0 {
        None
    } else if m[0].0 == ip {
        Some(m[0].1)
    } else {
        dns_lookup(m.skip(1), ip)
    }
}

/// One observation folded into the map: recorded only when the IP is
/// new.
pub open spec fn spec_record(
    m: Seq<(IpAddress, Seq<char>)>,
    ip: IpAddress,
    host: Seq<char>,
) -> Seq<(IpAddress, Seq<char>)> {
    if dns_lookup(m, ip) is Some {
        m
    } else {
        m.push((ip, host))
    }
}

/// A whole sequence of observations folded into the map, in order.
pub open spec fn spec_merge(
    m: Seq<(IpAddress, Seq<char>)>,
    obs: Seq<(IpAddress, Seq<char>)>,
) -> Seq<(IpAddress, Seq<char>)>
    decreases obs.len(),
{
    if obs.len() == 0 {
        m
    } else {
        spec_merge(spec_record(m, obs[0].0, obs[0].1), obs.skip(1))
    }
}

/// The first observation of an IP in a sequence of observations.
pub open spec fn first_observation(
    obs: Seq<(IpAddress, Seq<char>)>,
    ip: IpAddress,
) -> Option<Seq<char>>
    decreases obs.len(),
{
    if obs.len() == 0 {
        None
    } else if obs[0].0 == ip {
        Some(obs[0].1)
    } else {
        first_observation(obs.skip(1), ip)
    }
}

proof fn lemma_lookup_push(m: Seq<(IpAddress, Seq<char>)>, p: (IpAddress, Seq<char>), ip: IpAddress)
    ensures
        dns_lookup(m.push(p), ip) == (if dns_lookup(m, ip) is Some {
            dns_lookup(m, ip)
        } else if p.0 == ip {
            Some(p.1)
        } else {
            None
        }),
    decreases m.len(),
{
    if m.len() == 0 {
        assert(m.push(p)[0] == p);
        assert(m.push(p).skip(1) =~= Seq::<(IpAddress, Seq<char>)>::empty());
    } else {
        assert(m.push(p)[0] == m[0]);
        assert(m.push(p).skip(1) =~= m.skip(1).push(p));
        lemma_lookup_push(m.skip(1), p, ip);
        if m[0].0 == ip {
            assert(dns_lookup(m.push(p), ip) == Some(m[0].1));
            assert(dns_lookup(m, ip) == Some(m[0].1));
        } else {
            assert(dns_lookup(m.push(p), ip) == dns_lookup(m.skip(1).push(p), ip));
            assert(dns_lookup(m, ip) == dns_lookup(m.skip(1), ip));
        }
    }
}

/// First writer wins: after merging any sequence of observations, the
/// cached hostname of an IP is what the cache already held, or else the
/// first observation of that IP.
pub proof fn lemma_first_observation_wins(
    m: Seq<(IpAddress, Seq<char>)>,
    obs: Seq<(IpAddress, Seq<char>)>,
    ip: IpAddress,
)
    ensures
        dns_lookup(spec_merge(m, obs), ip) == (if dns_lookup(m, ip) is Some {
            dns_lookup(m, ip)
        } else {
            first_observation(obs, ip)
        }),
    decreases obs.len(),
{
    if obs.len() != 0 {
        let m1 = spec_record(m, obs[0].0, obs[0].1);
        if dns_lookup(m, obs[0].0) is None {
            lemma_lookup_push(m, (obs[0].0, obs[0].1), ip);
        }
        lemma_first_observation_wins(m1, obs.skip(1), ip);
    }
}

impl View for DnsCache {
    type V = Seq<(IpAddress, Seq<char>)>;

    open spec fn view(&self) -> Seq<(IpAddress, Seq<char>)> {
        Seq::new(self.entries@.len(), |i: int| (self.entries@[i].0, self.entries@[i].1@))
    }
}

impl DnsCache {
    pub fn new() -> (c: DnsCache)
        ensures
            c@ == Seq::<(IpAddress, Seq<char>)>::empty(),
    {
        let c = DnsCache { entries: Vec::new() };
        proof {
            assert(c@ =~= Seq::<(IpAddress, Seq<char>)>::empty());
        }
        c
    }

    /// The cached hostname for an IP, if one was ever recorded.
    pub fn lookup(&self, ip: IpAddress) -> (r: Option<String>)
        ensures
            r.deep_view() == dns_lookup(self@, ip),
    {
        let n = self.entries.len();
        let mut i: usize = 0;
        proof {
            assert(self@.skip(0) =~= self@);
        }
        while i < n
            invariant
                i <= n,
                n == self.entries@.len(),
                dns_lookup(self@, ip) == dns_lookup(self@.skip(i as int), ip),
            decreases n - i,
        {
            proof {
                assert(self@.skip(i as int)[0] == self@[i as int]);
            }
            if self.entries[i].0 == ip {
                return Some(self.entries[i].1.clone());
            }
            proof {
                assert(self@.skip(i as int).skip(1) =~= self@.skip(i + 1));
            }
            i = i + 1;
        }
        proof {
            assert(self@.skip(i as int).len() == 0);
        }
        None
    }

    /// Records a hostname for an IP unless one is already present.
    pub fn record(&mut self, ip: IpAddress, host: String)
        ensures
            final(self)@ == spec_record(old(self)@, ip, host@),
    {
        let existing = self.lookup(ip);
        if existing.is_none() {
            self.entries.push((ip, host));
            proof {
                assert(final(self)@ =~= old(self)@.push((ip, host@)));
            }
        }
    }

    /// Folds a batch of observations into the cache, in order, first
    /// writer winning.
    pub fn merge(&mut self, obs: &Vec<(IpAddress, String)>)
        ensures
            final(self)@ == spec_merge(old(self)@, obs.deep_view()),
    {
        let n = obs.len();
        let mut i: usize = 0;
        proof {
            assert(obs.deep_view().skip(0) =~= obs.deep_view());
        }
        while i < n
            invariant
                i <= n,
                n == obs@.len(),
                spec_merge(old(self)@, obs.deep_view()) == spec_merge(
                    self@,
                    obs.deep_view().skip(i as int),
                ),
            decreases n - i,
        {
            proof {
                assert(obs.deep_view().skip(i as int)[0] == obs.deep_view()[i as int]);
                assert(obs.deep_view()[i as int] == (obs@[i as int].0, obs@[i as int].1@));
                assert(obs.deep_view().skip(i as int).skip(1) =~= obs.deep_view().skip(i + 1));
            }
            let (ip, host) = (obs[i].0, obs[i].1.clone());
            self.record(ip, host);
            i = i + 1;
        }
        proof {
            assert(obs.deep_view().skip(i as int).len() == 0);
        }
    }

    pub fn len(&self) -> (n: usize)
        ensures
            n == self@.len(),
    {
        self.entries.len()
    }
}


// ─── The displaydns fallback parse ───────────────────────────────────────

/// What one line of the fallback source's output does to the parse
/// state: a `Record Name` line names the host that follows; an
/// `A (Host)` or `AAAA` record line binds that host to the address the
/// line carries.
pub open spec fn spec_dns_line(
    state: Option<Seq<char>>,
    acc: Seq<(IpAddress, Seq<char>)>,
    line: Seq<char>,
) -> (Option<Seq<char>>, Seq<(IpAddress, Seq<char>)>) {
    let t = spec_trim_text(line);
    if spec_starts_with(t, "Record Name"@) {
        match spec_find_char(t, ':', 0) {
            Some(ci) => {
                let name = spec_trim_text(t.skip(ci + 1));
                if name.len() > 0 && name != "."@ {
                    (Some(name), acc)
                } else {
                    (state, acc)
                }
            },
            None => (state, acc),
        }
    } else if spec_starts_with(t, "A (Host)"@) {
        match state {
            Some(name) => match spec_find_char(t, ':', 0) {
                Some(ci) => {
                    match spec_parse_ipv4(spec_trim_text(t.skip(ci + 1))) {
                        Some(v) => (state, acc.push((IpAddress::V4(v), name))),
                        None => (state, acc),
                    }
                },
                None => (state, acc),
            },
            None => (state, acc),
        }
    } else if spec_starts_with(t, "AAAA Record"@) {
        match state {
            Some(name) => match spec_find_colon_space(t, 0) {
                Some(ci) => {
                    match spec_parse_ipv6(spec_trim_text(t.skip(ci + 2))) {
                        Some(v) => (state, acc.push((IpAddress::V6(v), name))),
                        None => (state, acc),
                    }
                },
                None => (state, acc),
            },
            None => (state, acc),
        }
    } else {
        (state, acc)
    }
}

/// The first `": "` at or after `i`; v6 text holds colons of its own,
/// so the value of an `AAAA` line starts after a colon-space pair.
pub open spec fn spec_find_colon_space(s: Seq<char>, i: int) -> Option<int>
    decreases s.len() - i,
{
    if i < 0 || i + 1 >= s.len() {
        None
    } else if s[i] == ':' && s[i + 1] == ' ' {
        Some(i)
    } else {
        spec_find_colon_space(s, i + 1)
    }
}

fn find_colon_space(s: &str) -> (r: Option<usize>)
    ensures
        (match r {
            Some(j) => j + 1 < s@.len() && Some(j as int) == spec_find_colon_space(s@, 0),
            None => spec_find_colon_space(s@, 0) is None,
        }),
{
    let n = s.unicode_len();
    if n < 2 {
        return None;
    }
    let mut i: usize = 0;
    while i < n - 1
        invariant
            n >= 2,
            i <= n - 1,
            n == s@.len(),
            spec_find_colon_space(s@, 0) == spec_find_colon_space(s@, i as int),
        decreases n - i,
    {
        if s.get_char(i) == ':' && s.get_char(i + 1) == ' ' {
            return Some(i);
        }
        i = i + 1;
    }
    None
}

/// The observations a whole output yields, folded line by line.
pub open spec fn spec_parse_displaydns(
    lines: Seq<Seq<char>>,
    i: int,
    state: Option<Seq<char>>,
    acc: Seq<(IpAddress, Seq<char>)>,
) -> Seq<(IpAddress, Seq<char>)>
    decreases lines.len() - i,
{
    if i < 0 || i >= lines.len() {
        acc
    } else {
        let next = spec_dns_line(state, acc, lines[i]);
        spec_parse_displaydns(lines, i + 1, next.0, next.1)
    }
}

/// Parses the line-oriented output of the fallback reverse-DNS source
/// into IP-to-hostname observations, in output order. The hostnames it
/// yields are never empty and never the bare root dot.
pub fn parse_displaydns(lines: &Vec<String>) -> (r: Vec<(IpAddress, String)>)
    ensures
        r.deep_view() == spec_parse_displaydns(
            lines.deep_view(),
            0,
            None,
            Seq::<(IpAddress, Seq<char>)>::empty(),
        ),
{
    let n = lines.len();
    let mut out: Vec<(IpAddress, String)> = Vec::new();
    let mut current: Option<String> = None;
    let mut i: usize = 0;
    proof {
        assert(out.deep_view() =~= Seq::<(IpAddress, Seq<char>)>::empty());
    }
    while i < n
        invariant
            i <= n,
            n == lines@.len(),
            lines.deep_view().len() == n,
            spec_parse_displaydns(
                lines.deep_view(),
                0,
                None,
                Seq::<(IpAddress, Seq<char>)>::empty(),
            ) == spec_parse_displaydns(
                lines.deep_view(),
                i as int,
                match current {
                    Some(ref c) => Some(c@),
                    None => None,
                },
                out.deep_view(),
            ),
        decreases n - i,
    {
        proof {
            assert(lines.deep_view()[i as int] == lines@[i as int]@);
        }
        let line = lines[i].as_str();
        let (tb, te) = trimmed_bounds(line);
        let t = line.substring_char(tb, te);
        proof {
            assert(t@ =~= spec_trim_text(line@));
        }
        let ghost statev = (match current {
            Some(ref c) => Some(c@),
            None => None,
        });
        let ghost accv = out.deep_view();
        if str_starts_with(t, "Record Name") {
            if let Some(ci) = find_char(t, ':', 0) {
                let (vb, ve) = trimmed_bounds(t.substring_char(ci + 1, t.unicode_len()));
                let val = t.substring_char(ci + 1, t.unicode_len()).substring_char(vb, ve);
                proof {
                    assert(val@ =~= spec_trim_text(t@.skip(ci + 1)));
                }
                if val.unicode_len() > 0 && !str_eq_dot(val) {
                    current = Some(String::from_str(val));
                }
            }
        } else if str_starts_with(t, "A (Host)") {
            if current.is_some() {
                if let Some(ci) = find_char(t, ':', 0) {
                    let (vb, ve) = trimmed_bounds(t.substring_char(ci + 1, t.unicode_len()));
                    let val = t.substring_char(ci + 1, t.unicode_len()).substring_char(vb, ve);
                    proof {
                        assert(val@ =~= spec_trim_text(t@.skip(ci + 1)));
                    }
                    if let Some(v) = parse_ipv4(val) {
                        let name = match &current {
                            Some(c) => c.clone(),
                            None => String::new(),
                        };
                        let ghost before = out.deep_view();
                        out.push((IpAddress::V4(v), name));
                        proof {
                            assert(out.deep_view() =~= before.push(
                                (IpAddress::V4(v), statev->0),
                            ));
                        }
                    }
                }
            }
        } else if str_starts_with(t, "AAAA Record") {
            if current.is_some() {
                if let Some(ci) = find_colon_space(t) {
                    let (vb, ve) = trimmed_bounds(t.substring_char(ci + 2, t.unicode_len()));
                    let val = t.substring_char(ci + 2, t.unicode_len()).substring_char(vb, ve);
                    proof {
                        assert(val@ =~= spec_trim_text(t@.skip(ci + 2)));
                    }
                    if let Some(v) = parse_ipv6(val) {
                        let name = match &current {
                            Some(c) => c.clone(),
                            None => String::new(),
                        };
                        let ghost before = out.deep_view();
                        out.push((IpAddress::V6(v), name));
                        proof {
                            assert(out.deep_view() =~= before.push(
                                (IpAddress::V6(v), statev->0),
                            ));
                        }
                    }
                }
            }
        }
        i = i + 1;
    }
    out
}

/// Whether a trimmed name is the bare root dot.
fn str_eq_dot(s: &str) -> (r: bool)
    ensures
        r == (s@ == "."@),
{
    proof {
        reveal_strlit(".");
    }
    if s.unicode_len() != 1 {
        proof {
            assert(s@ != "."@) by {
                assert("."@.len() == 1);
            }
        }
        return false;
    }
    let c = s.get_char(0);
    if c == '.' {
        proof {
            assert(s@ =~= "."@);
        }
        true
    } else {
        proof {
            assert(s@ != "."@) by {
                assert("."@[0] == '.');
            }
        }
        false
    }
}

// ─── Well-known port labels ──────────────────────────────────────────────

/// The service label of a well-known port.
pub open spec fn spec_port_service_name(port: u16) -> Option<Seq<char>> {
    if port == 20 {
        Some("FTP-DATA"@)
    } else if port == 21 {
        Some("FTP"@)
    } else if port == 22 {
        Some("SSH"@)
    } else if port == 23 {
        Some("TELNET"@)
    } else if port == 25 {
        Some("SMTP"@)
    } else if port == 53 {
        Some("DNS"@)
    } else if port == 67 {
        Some("DHCP-S"@)
    } else if port == 68 {
        Some("DHCP-C"@)
    } else if port == 80 {
        Some("HTTP"@)
    } else if port == 110 {
        Some("POP3"@)
    } else if port == 123 {
        Some("NTP"@)
    } else if port == 143 {
        Some("IMAP"@)
    } else if port == 161 {
        Some("SNMP"@)
    } else if port == 389 {
        Some("LDAP"@)
    } else if port == 443 {
        Some("HTTPS"@)
    } else if port == 445 {
        Some("SMB"@)
    } else if port == 465 {
        Some("SMTPS"@)
    } else if port == 587 {
        Some("SUBMIT"@)
    } else if port == 636 {
        Some("LDAPS"@)
    } else if port == 993 {
        Some("IMAPS"@)
    } else if port == 995 {
        Some("POP3S"@)
    } else if port == 1433 {
        Some("MSSQL"@)
    } else if port == 1723 {
        Some("PPTP"@)
    } else if port == 3306 {
        Some("MySQL"@)
    } else if port == 3389 {
        Some("RDP"@)
    } else if port == 5060 {
        Some("SIP"@)
    } else if port == 5222 {
        Some("XMPP"@)
    } else if port == 5432 {
        Some("PostgreSQL"@)
    } else if port == 5900 {
        Some("VNC"@)
    } else if port == 6379 {
        Some("Redis"@)
    } else if port == 8080 {
        Some("HTTP-Alt"@)
    } else if port == 8443 {
        Some("HTTPS-Alt"@)
    } else if port == 9090 {
        Some("Prometheus"@)
    } else if port == 9200 {
        Some("Elastic"@)
    } else if port == 27017 {
        Some("MongoDB"@)
    } else {
        None
    }
}

pub fn port_service_name(port: u16) -> (r: Option<&'static str>)
    ensures
        (match r {
            Some(l) => spec_port_service_name(port) == Some(l@),
            None => spec_port_service_name(port) is None,
        }),
{
    match port {
        20 => Some("FTP-DATA"),
        21 => Some("FTP"),
        22 => Some("SSH"),
        23 => Some("TELNET"),
        25 => Some("SMTP"),
        53 => Some("DNS"),
        67 => Some("DHCP-S"),
        68 => Some("DHCP-C"),
        80 => Some("HTTP"),
        110 => Some("POP3"),
        123 => Some("NTP"),
        143 => Some("IMAP"),
        161 => Some("SNMP"),
        389 => Some("LDAP"),
        443 => Some("HTTPS"),
        445 => Some("SMB"),
        465 => Some("SMTPS"),
        587 => Some("SUBMIT"),
        636 => Some("LDAPS"),
        993 => Some("IMAPS"),
        995 => Some("POP3S"),
        1433 => Some("MSSQL"),
        1723 => Some("PPTP"),
        3306 => Some("MySQL"),
        3389 => Some("RDP"),
        5060 => Some("SIP"),
        5222 => Some("XMPP"),
        5432 => Some("PostgreSQL"),
        5900 => Some("VNC"),
        6379 => Some("Redis"),
        8080 => Some("HTTP-Alt"),
        8443 => Some("HTTPS-Alt"),
        9090 => Some("Prometheus"),
        9200 => Some("Elastic"),
        27017 => Some("MongoDB"),
        _ => None,
    }
}

} // verus!
