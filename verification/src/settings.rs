//! The provider settings of the desktop client. Credentials are kept elsewhere.
use vstd::prelude::*;
use crate::names::{ascending, NameSet};
use crate::protocol::{error, ErrorCode, ErrorEnvelope, ErrorView};
use crate::text::{
    all_digits, byte_len, bytes_in, chars_of, decimal,
    digits_value, is_alnum, is_ascii_alnum, lemma_decimal, lowered,
    only_trailing_characters_are_taken, parse_unsigned, pieces, pieces_lie_between_the_marks,
    same_text, split_on, to_lower, trim, trim_trailing, trimmed, views, without_trailing,
};

verus! {

broadcast use vstd::string::group_string_axioms;

pub const MAX_MODEL_BYTES: usize = 256;

pub const MAX_FETCH_HOSTS: usize = 64;

pub const MAX_HOST_CHARS: usize = 253;

pub const MAX_LABEL_CHARS: usize = 63;

#[derive(Debug, PartialEq, Eq)]
pub struct ProviderSettings {
    pub base_url: String,
    pub model: String,
    pub fetch_allow: Vec<String>,
    pub compact_mode: bool,
    /// What is shown of the stored key.
    pub api_key_mask: Option<String>,
}

// ---------------------------------------------------------------------------
// Hosts
// ---------------------------------------------------------------------------

/// A label of a host name: letters, digits and inner hyphens.
pub open spec fn is_label(s: Seq<char>) -> bool {
    &&& 0 < s.len() <= MAX_LABEL_CHARS
    &&& s[0] != '-'
    &&& s.last() != '-'
    &&& forall|i: int| 0 <= i < s.len() ==> (is_alnum(#[trigger] s[i]) || s[i] == '-')
}

/// A host name: labels with dots between them.
pub open spec fn is_host(s: Seq<char>) -> bool {
    &&& 0 < s.len() <= MAX_HOST_CHARS
    &&& forall|i: int| 0 <= i < pieces(s, '.').len() ==> is_label(#[trigger] pieces(s, '.')[i])
}

/// One number of an address: at most three digits, no zero before others, at most 255.
pub open spec fn octet_of(s: Seq<char>) -> Option<nat> {
    if 0 < s.len() <= 3 && all_digits(s) && (s[0] != '0' || s.len() == 1) && digits_value(s)
        <= 255 {
        Some(digits_value(s))
    } else {
        None
    }
}

/// The four numbers of an IPv4 address.
pub open spec fn ipv4_of(s: Seq<char>) -> Option<(nat, nat, nat, nat)> {
    let ps = pieces(s, '.');
    if ps.len() == 4 && octet_of(ps[0]) is Some && octet_of(ps[1]) is Some && octet_of(ps[2])
        is Some && octet_of(ps[3]) is Some {
        Some(
            (octet_of(ps[0])->0, octet_of(ps[1])->0, octet_of(ps[2])->0, octet_of(ps[3])->0),
        )
    } else {
        None
    }
}

/// Addresses that no public host has: private, loopback, link-local, broadcast and
/// unspecified ones.
pub open spec fn is_unsafe_ipv4(a: nat, b: nat, c: nat, d: nat) -> bool {
    ||| a == 10
    ||| (a == 172 && 16 <= b <= 31)
    ||| (a == 192 && b == 168)
    ||| a == 127
    ||| (a == 169 && b == 254)
    ||| (a == 255 && b == 255 && c == 255 && d == 255)
    ||| (a == 0 && b == 0 && c == 0 && d == 0)
}

/// Whether a text is such an address.
pub open spec fn is_unsafe_address(s: Seq<char>) -> bool {
    ipv4_of(s) matches Some((a, b, c, d)) && is_unsafe_ipv4(a, b, c, d)
}

/// Whether a host may be fetched from.
pub open spec fn is_fetch_host(s: Seq<char>) -> bool {
    is_host(s) && !is_unsafe_address(s) && s != "localhost"@
}

fn check_label(label: &str) -> (r: bool)
    ensures
        r == is_label(label@),
{
    let chars = chars_of(label);
    let n: usize = chars.len();
    if n == 0 || n > MAX_LABEL_CHARS || chars[0] == '-' || chars[n - 1] == '-' {
        return false;
    }
    let mut i: usize = 0;
    while i < n
        invariant
            i <= n,
            n == chars@.len(),
            chars@ == label@,
            forall|j: int| 0 <= j < i ==> (is_alnum(#[trigger] chars@[j]) || chars@[j] == '-'),
        decreases n - i,
    {
        if !(is_ascii_alnum(chars[i]) || chars[i] == '-') {
            assert(!(is_alnum(label@[i as int]) || label@[i as int] == '-'));
            return false;
        }
        i = i + 1;
    }
    true
}

fn check_host(host: &str) -> (r: bool)
    ensures
        r == is_host(host@),
{
    let n: usize = chars_of(host).len();
    if n == 0 || n > MAX_HOST_CHARS {
        return false;
    }
    let labels = split_on(host, '.');
    let ghost ps = pieces(host@, '.');
    let mut i: usize = 0;
    while i < labels.len()
        invariant
            i <= labels@.len(),
            ps == views(labels@),
            ps == pieces(host@, '.'),
            forall|j: int| 0 <= j < i ==> is_label(#[trigger] ps[j]),
        decreases labels@.len() - i,
    {
        assert(ps[i as int] == labels@[i as int]@);
        if !check_label(&labels[i]) {
            assert(!is_label(pieces(host@, '.')[i as int]));
            return false;
        }
        i = i + 1;
    }
    true
}

fn read_octet(text: &str) -> (r: Option<u64>)
    ensures
        r is Some <==> octet_of(text@) is Some,
        r matches Some(n) ==> octet_of(text@) == Some(n as nat),
        r matches Some(n) ==> n <= 255,
{
    let chars = chars_of(text);
    if chars.len() == 0 || chars.len() > 3 || (chars[0] == '0' && chars.len() > 1) {
        return None;
    }
    if chars[0] == '+' {
        assert(!crate::text::is_digit(text@[0]));
        return None;
    }
    parse_unsigned(text, 255)
}

/// Whether a text is the address of no public host.
pub fn is_forbidden_address(text: &str) -> (r: bool)
    ensures
        r == is_unsafe_address(text@),
{
    let ps = split_on(text, '.');
    assert(views(ps@).len() == ps@.len());
    if ps.len() != 4 {
        return false;
    }
    assert(views(ps@)[0] == ps@[0]@ && views(ps@)[1] == ps@[1]@ && views(ps@)[2] == ps@[2]@
        && views(ps@)[3] == ps@[3]@);
    match (read_octet(&ps[0]), read_octet(&ps[1]), read_octet(&ps[2]), read_octet(&ps[3])) {
        (Some(a), Some(b), Some(c), Some(d)) => {
            a == 10 || (a == 172 && 16 <= b && b <= 31) || (a == 192 && b == 168) || a == 127 || (a
                == 169 && b == 254) || (a == 255 && b == 255 && c == 255 && d == 255) || (a == 0
                && b == 0 && c == 0 && d == 0)
        },
        _ => false,
    }
}

/// Whether a host of a URL is the machine itself.
pub open spec fn is_loopback_host(s: Seq<char>) -> bool {
    ||| s == "localhost"@
    ||| s == "[::1]"@
    ||| (ipv4_of(s) matches Some((a, _, _, _)) && a == 127)
}

pub fn names_loopback(host: &str) -> (r: bool)
    ensures
        r == is_loopback_host(host@),
{
    if same_text(host, "localhost") || same_text(host, "[::1]") {
        return true;
    }
    let ps = split_on(host, '.');
    assert(views(ps@).len() == ps@.len());
    if ps.len() != 4 {
        return false;
    }
    assert(views(ps@)[0] == ps@[0]@ && views(ps@)[1] == ps@[1]@ && views(ps@)[2] == ps@[2]@
        && views(ps@)[3] == ps@[3]@);
    match (read_octet(&ps[0]), read_octet(&ps[1]), read_octet(&ps[2]), read_octet(&ps[3])) {
        (Some(a), Some(_), Some(_), Some(_)) => a == 127,
        _ => false,
    }
}

// ---------------------------------------------------------------------------
// Settings
// ---------------------------------------------------------------------------

pub open spec fn invalid_settings(message: Seq<char>) -> ErrorView {
    error(ErrorCode::ToolArgsInvalid, message)
}

fn invalid(message: &str) -> (r: ErrorEnvelope)
    ensures
        r@ == invalid_settings(message@),
{
    ErrorEnvelope::of(ErrorCode::ToolArgsInvalid, message)
}

/// A host as it is stored.
pub open spec fn stored_host(host: Seq<char>) -> Seq<char> {
    lowered(trimmed(host))
}

/// The first thing that is wrong with settings.
pub open spec fn settings_error(model: Seq<char>, hosts: Seq<Seq<char>>) -> Option<ErrorView> {
    if trimmed(model).len() == 0 || byte_len(trimmed(model)) > MAX_MODEL_BYTES {
        Some(invalid_settings("model is blank or too long"@))
    } else if hosts.len() > MAX_FETCH_HOSTS {
        Some(invalid_settings("fetch allowlist has too many hosts"@))
    } else if exists|i: int| 0 <= i < hosts.len() && !is_fetch_host(
        stored_host(#[trigger] hosts[i]),
    ) {
        Some(invalid_settings("fetch allowlist contains an invalid or private host"@))
    } else {
        None
    }
}

/// The hosts of settings as they are stored.
pub open spec fn stored_hosts(hosts: Seq<Seq<char>>) -> Set<Seq<char>> {
    hosts.map_values(|host: Seq<char>| stored_host(host)).to_set()
}

impl Default for ProviderSettings {
    fn default() -> (r: ProviderSettings)
        ensures
            is_default(r),
    {
        ProviderSettings {
            base_url: "https://api.deepseek.com/v1".to_string(),
            model: "deepseek-chat".to_string(),
            fetch_allow: Vec::new(),
            compact_mode: false,
            api_key_mask: None,
        }
    }
}

/// What a check makes of settings: an error, or the form in which they are stored.
pub open spec fn validated_as(
    s: ProviderSettings,
    r: Result<ProviderSettings, ErrorEnvelope>,
) -> bool {
    match r {
        Err(e) => settings_error(s.model@, views(s.fetch_allow@)) == Some(e@),
        Ok(checked) => {
            &&& settings_error(s.model@, views(s.fetch_allow@)) is None
            &&& checked.base_url@ == without_trailing(trimmed(s.base_url@), '/')
            &&& checked.model@ == trimmed(s.model@)
            &&& ascending(views(checked.fetch_allow@))
            &&& views(checked.fetch_allow@).to_set() == stored_hosts(views(s.fetch_allow@))
            &&& checked.compact_mode == s.compact_mode
            &&& checked.api_key_mask == s.api_key_mask
        },
    }
}

impl ProviderSettings {
    /// Checks settings and gives them in the form in which they are stored: without
    /// space around them, and with the hosts in order and each once.
    pub fn validate(self) -> (r: Result<ProviderSettings, ErrorEnvelope>)
        ensures
            validated_as(self, r),
    {
        let base_url = trim_trailing(&trim(&self.base_url), '/');
        let model = trim(&self.model);
        if model.as_str().is_empty() || bytes_in(&model) > MAX_MODEL_BYTES {
            return Err(invalid("model is blank or too long"));
        }
        let ghost hosts = views(self.fetch_allow@);
        assert(hosts.len() == self.fetch_allow@.len());
        if self.fetch_allow.len() > MAX_FETCH_HOSTS {
            return Err(invalid("fetch allowlist has too many hosts"));
        }
        let ghost stored = hosts.map_values(|host: Seq<char>| stored_host(host));
        let mut names = NameSet::new();
        let mut i: usize = 0;
        assert(stored.take(0).to_set() =~= Set::empty());
        while i < self.fetch_allow.len()
            invariant
                i <= self.fetch_allow@.len(),
                hosts == views(self.fetch_allow@),
                stored == hosts.map_values(|host: Seq<char>| stored_host(host)),
                names@ == stored.take(i as int).to_set(),
                forall|j: int| 0 <= j < i ==> is_fetch_host(stored_host(#[trigger] hosts[j])),
                hosts.len() <= MAX_FETCH_HOSTS,
                trimmed(self.model@).len() > 0,
                byte_len(trimmed(self.model@)) <= MAX_MODEL_BYTES,
            decreases self.fetch_allow@.len() - i,
        {
            assert(hosts[i as int] == self.fetch_allow@[i as int]@);
            let host = to_lower(&trim(&self.fetch_allow[i]));
            if !check_host(&host) || is_forbidden_address(&host) || same_text(&host, "localhost") {
                assert(!is_fetch_host(stored_host(hosts[i as int])));
                return Err(invalid("fetch allowlist contains an invalid or private host"));
            }
            names.insert(host);
            proof {
                let next = stored.take(i + 1);
                assert(stored[i as int] == host@);
                assert(next =~= stored.take(i as int).push(host@));
                lemma_push_set(stored.take(i as int), host@);
            }
            i = i + 1;
        }
        assert(stored.take(stored.len() as int) =~= stored);
        let fetch_allow = crate::protocol::copy_texts(names.names());
        Ok(
            ProviderSettings {
                base_url,
                model,
                fetch_allow,
                compact_mode: self.compact_mode,
                api_key_mask: self.api_key_mask,
            },
        )
    }
}

// ---------------------------------------------------------------------------
// The stored settings
// ---------------------------------------------------------------------------

/// The file that settings are stored in.
pub trait SettingsFile {
    /// What the file holds; nothing where there is no file.
    fn read(&self) -> Result<Option<ProviderSettings>, String>;

    fn write(&self, settings: &ProviderSettings) -> Result<(), String>;
}

/// Settings in a file. What is read from it and what is written to it is checked.
pub struct SettingsStore<F> {
    pub file: F,
}

pub open spec fn storage_error() -> ErrorView {
    error(ErrorCode::Internal, "settings storage is unavailable"@)
}

fn storage_failed() -> (r: ErrorEnvelope)
    ensures
        r@ == storage_error(),
{
    ErrorEnvelope::of(ErrorCode::Internal, "settings storage is unavailable")
}

pub open spec fn is_default(s: ProviderSettings) -> bool {
    &&& s.base_url@ == "https://api.deepseek.com/v1"@
    &&& s.model@ == "deepseek-chat"@
    &&& s.fetch_allow@.len() == 0
    &&& !s.compact_mode
    &&& s.api_key_mask is None
}

/// What loading comes to, given what was read.
pub open spec fn loaded_from(
    found: Result<Option<ProviderSettings>, String>,
    r: Result<ProviderSettings, ErrorEnvelope>,
) -> bool {
    match found {
        Err(_) => r is Err && r->Err_0@ == storage_error(),
        Ok(None) => r is Ok && is_default(r->Ok_0),
        Ok(Some(s)) => validated_as(s, r),
    }
}

/// What loading from a file can come to.
pub open spec fn loaded_as<F: SettingsFile>(
    file: &F,
    r: Result<ProviderSettings, ErrorEnvelope>,
) -> bool {
    exists|found: Result<Option<ProviderSettings>, String>|
        #[trigger] call_ensures(F::read, (file,), found) && loaded_from(found, r)
}

/// What saving to a file can come to. Settings that are refused are not written.
pub open spec fn saved_as<F: SettingsFile>(
    file: &F,
    s: ProviderSettings,
    r: Result<ProviderSettings, ErrorEnvelope>,
) -> bool {
    match settings_error(s.model@, views(s.fetch_allow@)) {
        Some(e) => r is Err && r->Err_0@ == e,
        None => exists|checked: &ProviderSettings, written: Result<(), String>|
            {
                &&& #[trigger] call_ensures(F::write, (file, checked), written)
                &&& validated_as(s, Ok(*checked))
                &&& match written {
                    Ok(()) => r == Ok::<ProviderSettings, ErrorEnvelope>(*checked),
                    Err(_) => r is Err && r->Err_0@ == storage_error(),
                }
            },
    }
}

impl<F: SettingsFile> SettingsStore<F> {
    pub fn load(&self) -> (r: Result<ProviderSettings, ErrorEnvelope>)
        ensures
            loaded_as(&self.file, r),
    {
        let found = self.file.read();
        let ghost seen = found;
        assert(call_ensures(F::read, (&self.file,), seen));
        match found {
            Err(_) => Err(storage_failed()),
            Ok(None) => Ok(ProviderSettings::default()),
            Ok(Some(settings)) => settings.validate(),
        }
    }

    pub fn save(&self, settings: ProviderSettings) -> (r: Result<ProviderSettings, ErrorEnvelope>)
        ensures
            saved_as(&self.file, settings, r),
    {
        let checked = match settings.validate() {
            Ok(checked) => checked,
            Err(e) => {
                return Err(e);
            },
        };
        let shown = &checked;
        let written = self.file.write(shown);
        assert(call_ensures(F::write, (&self.file, shown), written));
        assert(validated_as(settings, Ok(*shown)));
        match written {
            Ok(()) => Ok(checked),
            Err(_) => Err(storage_failed()),
        }
    }
}

proof fn lemma_push_set(s: Seq<Seq<char>>, x: Seq<char>)
    ensures
        s.push(x).to_set() == s.to_set().insert(x),
{
    let t = s.push(x);
    assert forall|y: Seq<char>| #[trigger] t.to_set().contains(y) <==> s.to_set().insert(x).contains(
        y,
    ) by {
        if t.contains(y) {
            let j = choose|j: int| 0 <= j < t.len() && t[j] == y;
            if j < s.len() {
                assert(s[j] == y);
            }
        }
        if s.contains(y) {
            let j = choose|j: int| 0 <= j < s.len() && s[j] == y;
            assert(t[j] == y);
        }
        if y == x {
            assert(t[s.len() as int] == x);
        }
    }
    assert(t.to_set() =~= s.to_set().insert(x));
}

// ---------------------------------------------------------------------------
// Laws
// ---------------------------------------------------------------------------

/// No accepted host is a URL, a pattern, has a port, or is an address of the machine
/// or of a private network.
pub proof fn accepted_hosts_are_public(host: Seq<char>, i: int)
    requires
        is_fetch_host(host),
    ensures
        !is_unsafe_address(host),
        host != "localhost"@,
        0 <= i < pieces(host, '.').len() ==> forall|j: int|
            0 <= j < pieces(host, '.')[i].len() ==> (#[trigger] pieces(host, '.')[i][j]) != '/'
                && pieces(host, '.')[i][j] != ':' && pieces(host, '.')[i][j] != '*',
{
    if 0 <= i < pieces(host, '.').len() {
        assert(is_label(pieces(host, '.')[i]));
    }
}

/// A number from nought to two hundred and fifty-five is read as an octet, and no other is.
pub proof fn octets_are_read_back(n: nat, s: Seq<char>)
    ensures
        n <= 255 ==> octet_of(decimal(n)) == Some(n),
        n > 255 ==> octet_of(decimal(n)) is None,
        octet_of(s) is Some ==> octet_of(s)->0 <= 255,
{
    lemma_decimal(n);
    if n <= 255 {
        reveal_with_fuel(decimal, 3);
        assert(decimal(n).len() <= 3);
        assert(n > 0 ==> decimal(n)[0] != '0');
    }
}

/// An address is four octets with dots between them.
pub proof fn an_address_is_four_octets(a: Seq<char>, b: Seq<char>, c: Seq<char>, d: Seq<char>)
    requires
        !a.contains('.') && !b.contains('.') && !c.contains('.') && !d.contains('.'),
    ensures
        ({
            let s = a + seq!['.'] + (b + seq!['.'] + (c + seq!['.'] + d));
            match ipv4_of(s) {
                Some((w, x, y, z)) => octet_of(a) == Some(w) && octet_of(b) == Some(x) && octet_of(c)
                    == Some(y) && octet_of(d) == Some(z),
                None => octet_of(a) is None || octet_of(b) is None || octet_of(c) is None
                    || octet_of(d) is None,
            }
        }),
{
    let cd = c + seq!['.'] + d;
    let bcd = b + seq!['.'] + cd;
    pieces_lie_between_the_marks(a, bcd, '.');
    pieces_lie_between_the_marks(b, cd, '.');
    pieces_lie_between_the_marks(c, d, '.');
    pieces_lie_between_the_marks(d, d, '.');
    assert(pieces(a + seq!['.'] + bcd, '.') =~= seq![a, b, c, d]);
}

/// The addresses that are not fetched from: private networks, this machine, the local link,
/// everyone and no one.
pub proof fn the_addresses_that_are_unsafe(a: nat, b: nat, c: nat, d: nat)
    ensures
        is_unsafe_ipv4(10, b, c, d),
        is_unsafe_ipv4(127, b, c, d),
        16 <= b <= 31 <==> is_unsafe_ipv4(172, b, c, d),
        b == 168 <==> is_unsafe_ipv4(192, b, c, d),
        b == 254 <==> is_unsafe_ipv4(169, b, c, d),
        is_unsafe_ipv4(255, b, c, d) <==> b == 255 && c == 255 && d == 255,
        is_unsafe_ipv4(0, b, c, d) <==> b == 0 && c == 0 && d == 0,
        a != 10 && a != 127 && a != 172 && a != 192 && a != 169 && a != 255 && a != 0
            ==> !is_unsafe_ipv4(a, b, c, d),
{
}

/// A host is made of labels with dots between them; each begins and ends with a letter or a
/// digit and holds no more than letters, digits and dashes.
pub proof fn what_a_host_is_made_of(s: Seq<char>, i: int, j: int)
    ensures
        is_host(s) ==> 0 < s.len() <= 253,
        is_host(s) && 0 <= i < pieces(s, '.').len() ==> {
            let label = pieces(s, '.')[i];
            &&& 0 < label.len() <= 63
            &&& label[0] != '-' && label.last() != '-'
            &&& 0 <= j < label.len() ==> ('a' <= label[j] <= 'z' || 'A' <= label[j] <= 'Z' || '0'
                <= label[j] <= '9' || label[j] == '-')
        },
{
    if is_host(s) && 0 <= i < pieces(s, '.').len() {
        assert(is_label(pieces(s, '.')[i]));
    }
}

/// The settings that are kept: the URL without the white around it and the slashes behind it,
/// the model without the white around it, and the hosts in small letters, each once and in
/// order. The rest is as it was given.
pub proof fn what_is_kept_of_settings(s: ProviderSettings, kept: ProviderSettings, i: int, j: int)
    requires
        validated_as(s, Ok(kept)),
    ensures
        kept.base_url@.len() > 0 ==> kept.base_url@.last() != '/',
        kept.base_url@ == without_trailing(trimmed(s.base_url@), '/'),
        kept.model@ == trimmed(s.model@),
        0 < kept.model@.len() && byte_len(kept.model@) <= 256,
        s.fetch_allow@.len() <= 64,
        0 <= i < s.fetch_allow@.len() ==> views(kept.fetch_allow@).contains(
            lowered(trimmed(s.fetch_allow@[i]@)),
        ),
        0 <= j < kept.fetch_allow@.len() ==> is_fetch_host(kept.fetch_allow@[j]@) && exists|k: int|
            0 <= k < s.fetch_allow@.len() && kept.fetch_allow@[j]@ == lowered(
                trimmed(#[trigger] s.fetch_allow@[k]@),
            ),
        kept.compact_mode == s.compact_mode,
        kept.api_key_mask == s.api_key_mask,
{
    let given = views(s.fetch_allow@);
    let hosts = views(kept.fetch_allow@);
    let stored = given.map_values(|host: Seq<char>| stored_host(host));
    only_trailing_characters_are_taken(trimmed(s.base_url@), '/');
    if 0 <= i < s.fetch_allow@.len() {
        assert(given[i] == s.fetch_allow@[i]@);
        assert(stored[i] == stored_host(given[i]));
        assert(stored.to_set().contains(stored[i]));
        assert(hosts.to_set().contains(stored[i]));
    }
    if 0 <= j < kept.fetch_allow@.len() {
        assert(hosts[j] == kept.fetch_allow@[j]@);
        assert(hosts.to_set().contains(hosts[j]));
        assert(stored.to_set().contains(hosts[j]));
        let k = choose|k: int| 0 <= k < stored.len() && stored[k] == hosts[j];
        assert(given[k] == s.fetch_allow@[k]@);
        assert(is_fetch_host(stored_host(given[k])));
    }
}

/// Settings are refused for their model, for the number of their hosts, or for a host that may
/// not be fetched from.
pub proof fn when_settings_are_refused(model: Seq<char>, hosts: Seq<Seq<char>>)
    ensures
        settings_error(model, hosts) is None <==> {
            &&& 0 < trimmed(model).len() && byte_len(trimmed(model)) <= 256
            &&& hosts.len() <= 64
            &&& forall|i: int|
                0 <= i < hosts.len() ==> is_fetch_host(lowered(trimmed(#[trigger] hosts[i])))
        },
        settings_error(model, hosts) is Some ==> settings_error(model, hosts)->0.code
            == ErrorCode::ToolArgsInvalid,
{
    if exists|i: int| 0 <= i < hosts.len() && !is_fetch_host(stored_host(#[trigger] hosts[i])) {
        let i = choose|i: int|
            0 <= i < hosts.len() && !is_fetch_host(stored_host(#[trigger] hosts[i]));
        assert(!is_fetch_host(lowered(trimmed(hosts[i]))));
    }
}

/// Where nothing was kept yet, the settings are those of the project; a store that cannot be
/// read is an error.
pub proof fn settings_without_a_file(e: String, r: Result<ProviderSettings, ErrorEnvelope>)
    ensures
        loaded_from(Ok(None), r) ==> r is Ok && r->Ok_0.base_url@ == "https://api.deepseek.com/v1"@
            && r->Ok_0.model@ == "deepseek-chat"@ && r->Ok_0.fetch_allow@.len() == 0
            && !r->Ok_0.compact_mode && r->Ok_0.api_key_mask is None,
        loaded_from(Err(e), r) ==> r is Err && r->Err_0@.code == ErrorCode::Internal,
{
}

/// What a host must be to be this machine itself.
pub proof fn which_hosts_are_this_machine(s: Seq<char>)
    ensures
        is_loopback_host("localhost"@),
        is_loopback_host("[::1]"@),
        is_loopback_host(s) ==> s == "localhost"@ || s == "[::1]"@ || (ipv4_of(s) is Some && (
        ipv4_of(s)->0).0 == 127),
        ipv4_of(s) is Some && (ipv4_of(s)->0).0 == 127 ==> is_loopback_host(s),
        is_fetch_host(s) ==> !is_loopback_host(s) || s == "[::1]"@,
{
    if is_fetch_host(s) && ipv4_of(s) is Some {
        assert(!is_unsafe_address(s));
    }
}

/// What is saved is what was checked, and what is loaded was checked too; a file that fails is
/// an error.
pub proof fn what_is_saved_was_checked<F: SettingsFile>(
    file: &F,
    s: ProviderSettings,
    r: Result<ProviderSettings, ErrorEnvelope>,
)
    ensures
        saved_as(file, s, r) && r is Ok ==> validated_as(s, r) && settings_error(
            s.model@,
            views(s.fetch_allow@),
        ) is None,
        saved_as(file, s, r) && settings_error(s.model@, views(s.fetch_allow@)) is Some ==> r is Err
            && r->Err_0@.code == ErrorCode::ToolArgsInvalid,
        saved_as(file, s, r) && settings_error(s.model@, views(s.fetch_allow@)) is None && r is Err
            ==> r->Err_0@.code == ErrorCode::Internal,
        loaded_from(Ok(Some(s)), r) ==> validated_as(s, r),
{
    when_settings_are_refused(s.model@, views(s.fetch_allow@));
    if saved_as(file, s, r) && settings_error(s.model@, views(s.fetch_allow@)) is None {
        let (checked, written) = choose|checked: &ProviderSettings, written: Result<(), String>|
            {
                &&& #[trigger] call_ensures(F::write, (file, checked), written)
                &&& validated_as(s, Ok(*checked))
                &&& match written {
                    Ok(()) => r == Ok::<ProviderSettings, ErrorEnvelope>(*checked),
                    Err(_) => r is Err && r->Err_0@ == storage_error(),
                }
            };
        assert(validated_as(s, Ok(*checked)));
    }
}

/// A host is a label, or a label, a dot and a host, as far as it is not too long.
pub proof fn hosts_are_labels_with_dots(a: Seq<char>, b: Seq<char>)
    requires
        !a.contains('.'),
        a.len() + 1 + b.len() <= 253,
        b.len() > 0,
    ensures
        is_host(a) <==> is_label(a),
        is_host(a + seq!['.'] + b) <==> is_label(a) && is_host(b),
{
    pieces_lie_between_the_marks(a, b, '.');
    let s = a + seq!['.'] + b;
    let rest = pieces(b, '.');
    let all = pieces(s, '.');
    assert(all =~= seq![a] + rest);
    assert(pieces(a, '.')[0] == a);
    if is_host(s) {
        assert(is_label(all[0]));
        assert forall|i: int| 0 <= i < rest.len() implies is_label(#[trigger] rest[i]) by {
            assert(is_label(all[i + 1]));
        }
    }
    if is_label(a) && is_host(b) {
        assert forall|i: int| 0 <= i < all.len() implies is_label(#[trigger] all[i]) by {
            if i > 0 {
                assert(is_label(rest[i - 1]));
            }
        }
    }
    if is_label(a) {
        assert forall|i: int| 0 <= i < pieces(a, '.').len() implies is_label(
            #[trigger] pieces(a, '.')[i],
        ) by {}
    }
}

/// A label is made of letters, digits and dashes, with no dash at its ends.
pub proof fn which_labels_are_fit(s: Seq<char>)
    ensures
        is_label(s) <==> {
            &&& 0 < s.len() <= 63
            &&& s[0] != '-' && s[s.len() - 1] != '-'
            &&& forall|i: int|
                0 <= i < s.len() ==> ('a' <= #[trigger] s[i] <= 'z' || 'A' <= s[i] <= 'Z' || '0'
                    <= s[i] <= '9' || s[i] == '-')
        },
{
    if is_label(s) {
        assert forall|i: int| 0 <= i < s.len() implies ('a' <= #[trigger] s[i] <= 'z' || 'A' <= s[i]
            <= 'Z' || '0' <= s[i] <= '9' || s[i] == '-') by {
            assert(is_alnum(s[i]) || s[i] == '-');
        }
    }
}

} // verus!
