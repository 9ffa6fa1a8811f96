//! The addresses of the store's server.

use vstd::prelude::*;
use vstd::utf8::*;

use crate::catalog::PRODUCTION_API_BASE_URL;
use crate::text;

verus! {

/// The server that the store talks to: the configured one, else the production server.
pub fn api_base_url<'a>(configured: Option<&'a str>) -> (base_url: &'a str)
    ensures
        base_url@ == match configured {
            Some(url) => url@,
            None => PRODUCTION_API_BASE_URL@,
        },
{
    match configured {
        Some(url) => url,
        None => PRODUCTION_API_BASE_URL,
    }
}

/// Whether a byte stands for itself in a component of an address.
pub open spec fn unreserved(byte: u8) -> bool {
    ||| 0x30 <= byte <= 0x39
    ||| 0x41 <= byte <= 0x5a
    ||| 0x61 <= byte <= 0x7a
    ||| byte == 0x2d
    ||| byte == 0x5f
    ||| byte == 0x2e
    ||| byte == 0x7e
}

/// A digit of a number in base sixteen, in upper case.
pub open spec fn hex_digit(n: int) -> char {
    if n < 10 {
        (0x30 + n) as char
    } else {
        (0x41 + n - 10) as char
    }
}

/// The way a byte is written in a component of an address.
pub open spec fn encoded_byte(byte: u8) -> Seq<char> {
    if unreserved(byte) {
        seq![byte as char]
    } else {
        seq!['%', hex_digit(byte as int / 16), hex_digit(byte as int % 16)]
    }
}

/// The way bytes are written in a component of an address.
pub open spec fn encoded_bytes(bytes: Seq<u8>) -> Seq<char>
    decreases bytes.len(),
{
    if bytes.len() == 0 {
        Seq::empty()
    } else {
        encoded_bytes(bytes.drop_last()) + encoded_byte(bytes.last())
    }
}

/// The way a text is written as a component of an address: byte by byte in UTF-8.
pub open spec fn encoded(value: Seq<char>) -> Seq<char> {
    encoded_bytes(encode_utf8(value))
}

/// A digit of a number in base sixteen, in upper case.
fn hex_char(n: u8) -> (c: char)
    requires
        n < 16,
    ensures
        c == hex_digit(n as int),
{
    if n < 10 {
        (0x30 + n) as char
    } else {
        (0x41 + (n - 10)) as char
    }
}

/// Writes a text as a component of an address.
pub fn encode_component(value: &str) -> (component: String)
    ensures
        component@ == encoded(value@),
{
    let mut component = String::new();
    let bytes = value.as_bytes();
    let mut i: usize = 0;
    while i < bytes.len()
        invariant
            i <= bytes@.len(),
            bytes@ == encode_utf8(value@),
            component@ == encoded_bytes(bytes@.take(i as int)),
        decreases bytes@.len() - i,
    {
        let byte: u8 = bytes[i];
        let ghost before = component@;
        if (0x30 <= byte && byte <= 0x39) || (0x41 <= byte && byte <= 0x5a) || (0x61 <= byte && byte
            <= 0x7a) || byte == 0x2d || byte == 0x5f || byte == 0x2e || byte == 0x7e {
            component.push(byte as char);
        } else {
            component.push('%');
            component.push(hex_char(byte / 16));
            component.push(hex_char(byte % 16));
        }
        assert(component@ == before + encoded_byte(byte));
        assert(bytes@.take(i + 1).drop_last() == bytes@.take(i as int));
        i += 1;
    }
    assert(bytes@.take(i as int) == bytes@);
    component
}

/// The address of the server without the slashes at its end.
pub open spec fn root(base_url: Seq<char>) -> Seq<char> {
    text::without_trailing(base_url, '/')
}

/// What an answer is asked to be fit for: the store offers nothing for any other machine.
pub open spec fn target_query() -> Seq<char> {
    "architecture=x86_64&abi=mochios-1"@
}

/// The address of the storefront.
pub open spec fn storefront_address(base_url: Seq<char>) -> Seq<char> {
    root(base_url) + "/storefront"@
}

/// The address of the releases of an app.
pub open spec fn release_address(base_url: Seq<char>, bundle_id: Seq<char>) -> Seq<char> {
    root(base_url) + "/apps/"@ + encoded(bundle_id) + "/releases?"@ + target_query()
}

/// The address of the package of a version of an app.
pub open spec fn package_address(
    base_url: Seq<char>,
    bundle_id: Seq<char>,
    version: Seq<char>,
) -> Seq<char> {
    root(base_url) + "/apps/"@ + encoded(bundle_id) + "/download?version="@ + encoded(version)
        + "&"@ + target_query()
}

/// The address of the storefront.
pub fn storefront_url(base_url: &str) -> (url: String)
    ensures
        url@ == storefront_address(base_url@),
{
    let mut url = text::trim_end(base_url, '/');
    text::push_text(&mut url, "/storefront");
    url
}

/// The address of the releases of an app.
pub fn release_url(base_url: &str, bundle_id: &str) -> (url: String)
    ensures
        url@ == release_address(base_url@, bundle_id@),
{
    let mut url = text::trim_end(base_url, '/');
    text::push_text(&mut url, "/apps/");
    text::push_text(&mut url, encode_component(bundle_id).as_str());
    text::push_text(&mut url, "/releases?");
    text::push_text(&mut url, "architecture=x86_64&abi=mochios-1");
    url
}

/// The address of the package of a version of an app.
pub fn package_url(base_url: &str, bundle_id: &str, version: &str) -> (url: String)
    ensures
        url@ == package_address(base_url@, bundle_id@, version@),
{
    let mut url = text::trim_end(base_url, '/');
    text::push_text(&mut url, "/apps/");
    text::push_text(&mut url, encode_component(bundle_id).as_str());
    text::push_text(&mut url, "/download?version=");
    text::push_text(&mut url, encode_component(version).as_str());
    text::push_text(&mut url, "&");
    text::push_text(&mut url, "architecture=x86_64&abi=mochios-1");
    url
}

/// The byte that the first characters of a component stand for.
pub open spec fn decoded_byte(component: Seq<char>) -> u8 {
    if component[0] == '%' {
        (hex_value(component[1]) * 16 + hex_value(component[2])) as u8
    } else {
        component[0] as u8
    }
}

/// The value of a digit in base sixteen, in upper case.
pub open spec fn hex_value(c: char) -> int {
    if c as u32 <= 0x39 {
        c as u32 - 0x30
    } else {
        c as u32 - 0x41 + 10
    }
}

/// The bytes that a component stands for.
pub open spec fn decoded_bytes(component: Seq<char>) -> Seq<u8>
    decreases component.len(),
{
    if component.len() == 0 {
        Seq::empty()
    } else if component[0] == '%' && component.len() >= 3 {
        seq![decoded_byte(component)] + decoded_bytes(component.skip(3))
    } else {
        seq![component[0] as u8] + decoded_bytes(component.skip(1))
    }
}

proof fn lemma_encoded_front(bytes: Seq<u8>)
    requires
        bytes.len() > 0,
    ensures
        encoded_bytes(bytes) == encoded_byte(bytes[0]) + encoded_bytes(bytes.drop_first()),
    decreases bytes.len(),
{
    if bytes.len() == 1 {
        assert(bytes.drop_last() == Seq::<u8>::empty());
        assert(bytes.drop_first() == Seq::<u8>::empty());
    } else {
        lemma_encoded_front(bytes.drop_last());
        assert(bytes.drop_last().drop_first() == bytes.drop_first().drop_last());
    }
}

/// Nothing of a text is lost in a component of an address: decoding the component gives the
/// bytes of the text back.
pub proof fn law_component_decodes(value: Seq<char>)
    ensures
        decoded_bytes(encoded(value)) == encode_utf8(value),
{
    lemma_bytes_decode(encode_utf8(value));
}

proof fn lemma_bytes_decode(bytes: Seq<u8>)
    ensures
        decoded_bytes(encoded_bytes(bytes)) == bytes,
    decreases bytes.len(),
{
    if bytes.len() > 0 {
        let byte = bytes[0];
        let rest = bytes.drop_first();
        let component = encoded_bytes(bytes);
        lemma_encoded_front(bytes);
        lemma_bytes_decode(rest);
        assert(bytes == seq![byte] + rest);
        if unreserved(byte) {
            assert(component.skip(1) == encoded_bytes(rest));
        } else {
            assert(component.skip(3) == encoded_bytes(rest));
        }
    }
}

/// Different texts are different components of an address.
pub proof fn law_components_differ(first: Seq<char>, second: Seq<char>)
    requires
        encoded(first) == encoded(second),
    ensures
        first == second,
{
    law_component_decodes(first);
    law_component_decodes(second);
    encode_utf8_decode_utf8(first);
    encode_utf8_decode_utf8(second);
}

/// Whether a character may stand in a component of an address.
pub open spec fn component_char(c: char) -> bool {
    c == '%' || (c as u32 <= 0x7f && unreserved(c as u8))
}

/// A component holds nothing that would end it: every character is unreserved or belongs to an
/// escape.
pub proof fn law_component_is_closed(value: Seq<char>)
    ensures
        forall|i: int| 0 <= i < encoded(value).len() ==> component_char(#[trigger] encoded(value)[i]),
{
    lemma_component_chars(encode_utf8(value));
}

proof fn lemma_component_chars(bytes: Seq<u8>)
    ensures
        forall|i: int|
            0 <= i < encoded_bytes(bytes).len() ==> component_char(
                #[trigger] encoded_bytes(bytes)[i],
            ),
    decreases bytes.len(),
{
    if bytes.len() > 0 {
        lemma_component_chars(bytes.drop_last());
        let front = encoded_bytes(bytes.drop_last());
        let tail = encoded_byte(bytes.last());
        assert forall|i: int| 0 <= i < encoded_bytes(bytes).len() implies component_char(
            #[trigger] encoded_bytes(bytes)[i],
        ) by {
            if i < front.len() {
                assert(encoded_bytes(bytes)[i] == front[i]);
            } else {
                assert(encoded_bytes(bytes)[i] == tail[i - front.len()]);
            }
        }
    }
}

/// A slash at the end of the server's address makes no difference.
pub proof fn law_trailing_slash_is_ignored(base_url: Seq<char>, bundle_id: Seq<char>, version: Seq<char>)
    ensures
        storefront_address(base_url.push('/')) == storefront_address(base_url),
        release_address(base_url.push('/'), bundle_id) == release_address(base_url, bundle_id),
        package_address(base_url.push('/'), bundle_id, version) == package_address(
            base_url,
            bundle_id,
            version,
        ),
{
    assert(base_url.push('/').drop_last() == base_url);
}

/// Whether `suffix` is the end of `address`.
pub open spec fn ends_with(address: Seq<char>, suffix: Seq<char>) -> bool {
    suffix.len() <= address.len() && address.skip(address.len() - suffix.len()) == suffix
}

/// Releases and packages are only ever asked for with the machine that they are for: no address
/// of either is without it, whatever the app and the version are called.
pub proof fn law_only_fitting_packages(base_url: Seq<char>, bundle_id: Seq<char>, version: Seq<char>)
    ensures
        ends_with(release_address(base_url, bundle_id), seq!['?'] + target_query()),
        ends_with(package_address(base_url, bundle_id, version), seq!['&'] + target_query()),
{
    reveal_strlit("/releases?");
    reveal_strlit("&");
    let release = release_address(base_url, bundle_id);
    let suffix = seq!['?'] + target_query();
    assert(release.skip(release.len() - suffix.len()) == suffix);
    let package = package_address(base_url, bundle_id, version);
    let end = seq!['&'] + target_query();
    assert(package.skip(package.len() - end.len()) == end);
}

/// A text is written as its bytes in UTF-8 are. Bytes are written one by one, in order, each on
/// its own: letters, digits and four marks as they
/// are, every other byte as a percent sign and two digits of base sixteen in upper case.
pub proof fn law_bytes_are_written_one_by_one(value: Seq<char>, bytes: Seq<u8>, byte: u8)
    ensures
        encoded(value) == encoded_bytes(encode_utf8(value)),
        encoded_bytes(Seq::empty()) == Seq::<char>::empty(),
        ({
            let c = byte as char;
            let plain = ('0' <= c <= '9') || ('A' <= c <= 'Z') || ('a' <= c <= 'z') || c == '-' || c
                == '_' || c == '.' || c == '~';
            let digits = "0123456789ABCDEF"@;
            encoded_bytes(bytes.push(byte)) == encoded_bytes(bytes) + (if plain {
                seq![c]
            } else {
                seq!['%', digits[byte as int / 16], digits[byte as int % 16]]
            })
        }),
{
    reveal_strlit("0123456789ABCDEF");
    assert(bytes.push(byte).drop_last() == bytes);
}

proof fn lemma_root(base: Seq<char>, n: nat)
    requires
        base.len() == 0 || base.last() != '/',
    ensures
        root(base + Seq::new(n, |i: int| '/')) == base,
    decreases n,
{
    if n == 0 {
        assert(base + Seq::new(n, |i: int| '/') == base);
    } else {
        assert((base + Seq::new(n, |i: int| '/')).drop_last() == base + Seq::new((n - 1) as nat, |i: int| '/'));
        lemma_root(base, (n - 1) as nat);
    }
}

/// The storefront is at `/storefront` of the server, however many slashes the server's address
/// ends with.
pub proof fn law_storefront_is_below_the_server(base: Seq<char>, n: nat)
    requires
        base.len() == 0 || base.last() != '/',
    ensures
        storefront_address(base + Seq::new(n, |i: int| '/')) == base + "/storefront"@,
{
    lemma_root(base, n);
}

proof fn lemma_spells(value: Seq<char>)
    ensures
        decoded_bytes(encoded(value)) == encode_utf8(value),
        !encoded(value).contains('/'),
        !encoded(value).contains('?'),
        !encoded(value).contains('&'),
        !encoded(value).contains('='),
        !encoded(value).contains('#'),
{
    law_component_decodes(value);
    law_component_is_closed(value);
    assert forall|i: int| 0 <= i < encoded(value).len() implies {
        let c = #[trigger] encoded(value)[i];
        c != '/' && c != '?' && c != '&' && c != '=' && c != '#'
    } by {
        assert(component_char(encoded(value)[i]));
    }
}

/// The releases of an app are asked for with the whole of its bundle identifier, and for this
/// machine alone.
pub proof fn law_release_address_names_the_app(base: Seq<char>, n: nat, bundle_id: Seq<char>)
    requires
        base.len() == 0 || base.last() != '/',
    ensures
        exists|id: Seq<char>|
            #[trigger] decoded_bytes(id) == encode_utf8(bundle_id) && id == encoded(bundle_id)
                && !id.contains('/') && !id.contains('?') && !id.contains('#') && release_address(base + Seq::new(n, |i: int| '/'), bundle_id)
                == base + "/apps/"@ + id + "/releases?architecture=x86_64&abi=mochios-1"@,
{
    lemma_root(base, n);
    lemma_spells(bundle_id);
    reveal_strlit("/releases?");
    reveal_strlit("architecture=x86_64&abi=mochios-1");
    reveal_strlit("/releases?architecture=x86_64&abi=mochios-1");
    let id = encoded(bundle_id);
    assert("/releases?"@ + "architecture=x86_64&abi=mochios-1"@
        =~= "/releases?architecture=x86_64&abi=mochios-1"@);
    assert(release_address(base + Seq::new(n, |i: int| '/'), bundle_id) =~= base + "/apps/"@ + id
        + "/releases?architecture=x86_64&abi=mochios-1"@);
    assert(decoded_bytes(id) == encode_utf8(bundle_id));
}

/// A package is asked for with the whole of the bundle identifier and the whole of the version,
/// and for this machine alone: what stands between `version=` and the next `&` decodes to the
/// bytes of the version.
pub proof fn law_package_address_names_app_and_version(
    base: Seq<char>,
    n: nat,
    bundle_id: Seq<char>,
    version: Seq<char>,
)
    requires
        base.len() == 0 || base.last() != '/',
    ensures
        exists|id: Seq<char>, v: Seq<char>|
            #[trigger] decoded_bytes(id) == encode_utf8(bundle_id) && #[trigger] decoded_bytes(v)
                == encode_utf8(version) && id == encoded(bundle_id) && v == encoded(version)
                && !id.contains('/') && !id.contains('?') && !id.contains('#') && !v.contains('&')
                && !v.contains('#') && package_address(
                base + Seq::new(n, |i: int| '/'),
                bundle_id,
                version,
            ) == base + "/apps/"@ + id + "/download?version="@ + v
                + "&architecture=x86_64&abi=mochios-1"@,
{
    lemma_root(base, n);
    lemma_spells(bundle_id);
    lemma_spells(version);
    reveal_strlit("&");
    reveal_strlit("architecture=x86_64&abi=mochios-1");
    reveal_strlit("&architecture=x86_64&abi=mochios-1");
    let id = encoded(bundle_id);
    let v = encoded(version);
    assert("&"@ + "architecture=x86_64&abi=mochios-1"@ =~= "&architecture=x86_64&abi=mochios-1"@);
    assert(package_address(base + Seq::new(n, |i: int| '/'), bundle_id, version) =~= base + "/apps/"@ + id
        + "/download?version="@ + v + "&architecture=x86_64&abi=mochios-1"@);
    assert(decoded_bytes(id) == encode_utf8(bundle_id) && decoded_bytes(v) == encode_utf8(version));
}

/// Where two texts go on with a character that neither start holds, the starts are the same.
proof fn lemma_same_start(a: Seq<char>, x: Seq<char>, b: Seq<char>, y: Seq<char>, c: char)
    requires
        a + x == b + y,
        !a.contains(c),
        !b.contains(c),
        x.len() > 0,
        y.len() > 0,
        x[0] == c,
        y[0] == c,
    ensures
        a == b,
        x == y,
{
    assert((a + x)[a.len() as int] == c);
    assert((b + y)[b.len() as int] == c);
    if a.len() < b.len() {
        assert((b + y)[a.len() as int] == b[a.len() as int]);
    }
    if b.len() < a.len() {
        assert((a + x)[b.len() as int] == a[b.len() as int]);
    }
    assert(a =~= (a + x).take(a.len() as int));
    assert(b =~= (b + y).take(a.len() as int));
    assert(x =~= (a + x).skip(a.len() as int));
    assert(y =~= (b + y).skip(a.len() as int));
}

/// Different apps have different addresses for their releases.
pub proof fn law_release_addresses_differ(base_url: Seq<char>, first: Seq<char>, second: Seq<char>)
    requires
        release_address(base_url, first) == release_address(base_url, second),
    ensures
        first == second,
{
    lemma_spells(first);
    lemma_spells(second);
    reveal_strlit("/releases?");
    let start = root(base_url) + "/apps/"@;
    let end = "/releases?"@ + target_query();
    assert(release_address(base_url, first) =~= start + (encoded(first) + end));
    assert(release_address(base_url, second) =~= start + (encoded(second) + end));
    assert(encoded(first) + end =~= release_address(base_url, first).skip(start.len() as int));
    assert(encoded(second) + end =~= release_address(base_url, second).skip(start.len() as int));
    lemma_same_start(encoded(first), end, encoded(second), end, '/');
    law_components_differ(first, second);
}

/// Packages of different apps or versions have different addresses.
pub proof fn law_package_addresses_differ(
    base_url: Seq<char>,
    first: Seq<char>,
    first_version: Seq<char>,
    second: Seq<char>,
    second_version: Seq<char>,
)
    requires
        package_address(base_url, first, first_version) == package_address(
            base_url,
            second,
            second_version,
        ),
    ensures
        first == second,
        first_version == second_version,
{
    lemma_spells(first);
    lemma_spells(second);
    lemma_spells(first_version);
    lemma_spells(second_version);
    reveal_strlit("/download?version=");
    reveal_strlit("&");
    let start = root(base_url) + "/apps/"@;
    let query = "/download?version="@;
    let end = "&"@ + target_query();
    let x = query + (encoded(first_version) + end);
    let y = query + (encoded(second_version) + end);
    let a = package_address(base_url, first, first_version);
    let b = package_address(base_url, second, second_version);
    assert(a =~= start + (encoded(first) + x));
    assert(b =~= start + (encoded(second) + y));
    assert(encoded(first) + x =~= a.skip(start.len() as int));
    assert(encoded(second) + y =~= b.skip(start.len() as int));
    lemma_same_start(encoded(first), x, encoded(second), y, '/');
    assert(encoded(first_version) + end =~= x.skip(query.len() as int));
    assert(encoded(second_version) + end =~= y.skip(query.len() as int));
    lemma_same_start(encoded(first_version), end, encoded(second_version), end, '&');
    law_components_differ(first, second);
    law_components_differ(first_version, second_version);
}

} // verus!
