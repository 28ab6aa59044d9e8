//! The client of a registry: how it signs in and what it can list.

use base64::engine::general_purpose;
use base64::Engine;
use vstd::prelude::*;
use vstd::utf8::encode_utf8;

use crate::config::{HarborConfig, HarborConfigView};
use crate::image::lemma_cut_at_first;
use crate::listing::{
    ArtifactListing, ArtifactListingView, RepositoryListing, RepositoryListingView,
};
use crate::text;

verus! {

/// The byte of `bytes` at `i`, and 0 past the end.
pub open spec fn byte_at(bytes: Seq<u8>, i: int) -> int {
    if i < bytes.len() {
        bytes[i] as int
    } else {
        0
    }
}

/// The three bytes of a block as one number, most significant byte first.
pub open spec fn block_value(bytes: Seq<u8>, block: int) -> int {
    byte_at(bytes, 3 * block) * 65536 + byte_at(bytes, 3 * block + 1) * 256 + byte_at(
        bytes,
        3 * block + 2,
    )
}

/// The six bits for the `i`-th character of the base64 text of `bytes`: each
/// block of three bytes is four groups of six bits.
pub open spec fn sextet(bytes: Seq<u8>, i: int) -> int {
    let value = block_value(bytes, i / 4);
    if i % 4 == 0 {
        value / 262144
    } else if i % 4 == 1 {
        value / 4096 % 64
    } else if i % 4 == 2 {
        value / 64 % 64
    } else {
        value % 64
    }
}

/// The character of the standard alphabet of base64 for six bits.
pub open spec fn base64_symbol(bits: int) -> char {
    if bits < 26 {
        (65 + bits) as char
    } else if bits < 52 {
        (97 + bits - 26) as char
    } else if bits < 62 {
        (48 + bits - 52) as char
    } else if bits == 62 {
        '+'
    } else {
        '/'
    }
}

/// How many characters the base64 text of `n` bytes has, padding included.
pub open spec fn base64_len(n: nat) -> nat {
    (n + 2) / 3 * 4
}

/// The base64 text of bytes, in the standard alphabet, padded with `=` to
/// whole blocks.
pub open spec fn base64_text(bytes: Seq<u8>) -> Seq<char> {
    Seq::new(
        base64_len(bytes.len()),
        |i: int|
            if 3 * i < 4 * bytes.len() {
                base64_symbol(sextet(bytes, i))
            } else {
                '='
            },
    )
}

/// The base64 text of bytes, from `encode` of base64's standard engine. That
/// function panics where it cannot allocate the text, so the text has to fit.
#[verifier::external_body]
fn base64_encode(bytes: &[u8]) -> (r: String)
    requires
        base64_len(bytes@.len()) <= isize::MAX,
    ensures
        r@ == base64_text(bytes@),
{
    general_purpose::STANDARD.encode(bytes)
}

/// The error of `reqwest::header::HeaderValue`.
#[verifier::external_type_specification]
#[verifier::external_body]
pub struct ExInvalidHeaderValue(reqwest::header::InvalidHeaderValue);

/// Whether these bytes can be the value of an HTTP header: none is an ASCII
/// control character but the tab.
pub open spec fn is_header_value(bytes: Seq<u8>) -> bool {
    forall|i: int|
        0 <= i < bytes.len() ==> (#[trigger] bytes[i] >= 32 && bytes[i] != 127) || bytes[i] == 9
}

/// The bytes of the header value that `reqwest::header::HeaderValue::from_str`
/// makes of a text. It takes every text without ASCII control characters other
/// than the tab, characters past ASCII included, keeps its bytes as they are,
/// and refuses any other text.
#[verifier::external_body]
fn header_value(value: &str) -> (r: Result<Vec<u8>, reqwest::header::InvalidHeaderValue>)
    ensures
        match r {
            Ok(bytes) => is_header_value(encode_utf8(value@)) && bytes@ == encode_utf8(value@),
            Err(_) => !is_header_value(encode_utf8(value@)),
        },
{
    match reqwest::header::HeaderValue::from_str(value) {
        Ok(header) => Ok(header.as_bytes().to_vec()),
        Err(error) => Err(error),
    }
}

impl HarborConfigView {
    /// User and password as basic authentication joins them.
    pub open spec fn credentials(self) -> Seq<char> {
        self.username + ":"@ + self.password
    }

    /// Whether the text of the authorization fits in memory.
    pub open spec fn auth_fits(self) -> bool {
        base64_len(encode_utf8(self.credentials()).len()) <= isize::MAX
    }

    /// The value of the authorization header.
    pub open spec fn basic_auth(self) -> Seq<char> {
        "Basic "@ + base64_text(encode_utf8(self.credentials()))
    }
}

impl HarborConfig {
    /// User and password as basic authentication joins them.
    fn credentials(&self) -> (r: String)
        ensures
            r@ == self@.credentials(),
    {
        let mut r = self.username.clone();
        r.append(":");
        r.append(self.password.as_str());
        r
    }

    /// Whether the text of the authorization fits in memory.
    pub fn auth_fits(&self) -> (r: bool)
        ensures
            r == self@.auth_fits(),
    {
        let credentials = self.credentials();
        let n: usize = credentials.as_str().as_bytes().len();
        (n as u128 + 2) / 3 * 4 <= isize::MAX as u128
    }

    /// The value of the authorization header.
    pub fn basic_auth(&self) -> (r: String)
        requires
            self@.auth_fits(),
        ensures
            r@ == self@.basic_auth(),
    {
        let credentials = self.credentials();
        let encoded = base64_encode(credentials.as_str().as_bytes());
        let mut r = text::owned("Basic ");
        r.append(encoded.as_str());
        r
    }
}

/// Why a client could not be made.
#[derive(Debug, Clone, Copy, PartialEq, Eq, Structural)]
pub enum ClientError {
    /// The authorization cannot be the value of an HTTP header.
    InvalidAuthorization,
}

/// A client of a registry: the registry and the header that signs in to it.
pub struct HarborClient {
    config: HarborConfig,
    authorization: Vec<u8>,
}

impl HarborClient {
    /// The registry of the client.
    pub closed spec fn registry(self) -> HarborConfigView {
        self.config@
    }

    /// The value of the authorization header, in bytes.
    pub closed spec fn header(self) -> Seq<u8> {
        self.authorization@
    }

    /// A client of a registry. Whatever the user and the password are, their
    /// authorization can be sent: this does not fail.
    pub fn new(config: HarborConfig) -> (r: Result<HarborClient, ClientError>)
        requires
            config@.auth_fits(),
        ensures
            r matches Ok(client) && client.registry() == config@ && client.header()
                == encode_utf8(config@.basic_auth()),
    {
        proof {
            law_authorization_is_a_header_value(config@);
        }
        match header_value(config.basic_auth().as_str()) {
            Ok(authorization) => Ok(HarborClient { config, authorization }),
            Err(_) => Err(ClientError::InvalidAuthorization),
        }
    }

    /// The registry of the client.
    pub fn config(&self) -> (r: &HarborConfig)
        ensures
            r@ == self.registry(),
    {
        &self.config
    }

    /// The value of the authorization header, in bytes.
    pub fn authorization(&self) -> (r: &Vec<u8>)
        ensures
            r@ == self.header(),
    {
        &self.authorization
    }

    /// The listing of the repositories of a project, before its first page.
    pub fn list_repositories(&self, project_name: &str) -> (r: RepositoryListing)
        ensures
            r.wf(),
            r@ == RepositoryListingView::start(self.registry().url, project_name@),
    {
        RepositoryListing::new(self.config.url.as_str(), project_name)
    }

    /// The listing of the artifacts of a repository, before its first page.
    pub fn list_artifacts(&self, project_name: &str, repository_name: &str) -> (r: ArtifactListing)
        ensures
            r.wf(),
            r@ == ArtifactListingView::start(
                self.registry().url,
                project_name@,
                repository_name@,
            ),
    {
        ArtifactListing::new(self.config.url.as_str(), project_name, repository_name)
    }
}

/// Six bits are a number below 64.
proof fn lemma_sextet_range(bytes: Seq<u8>, i: int)
    requires
        0 <= i,
    ensures
        0 <= sextet(bytes, i) < 64,
{
    let value = block_value(bytes, i / 4);
    assert(0 <= value < 16777216);
}

/// The characters of the alphabet are visible, none is the padding, and no two
/// are the same.
proof fn lemma_symbols(a: int, b: int)
    requires
        0 <= a < 64,
        0 <= b < 64,
    ensures
        32 <= base64_symbol(a) as int <= 126,
        base64_symbol(a) != '=',
        base64_symbol(a) == base64_symbol(b) ==> a == b,
{
}

/// The authorization of any user and password is the value of an HTTP header:
/// it is made of visible ASCII characters only.
pub proof fn law_authorization_is_a_header_value(config: HarborConfigView)
    ensures
        is_header_value(encode_utf8(config.basic_auth())),
{
    let text = config.basic_auth();
    let bytes = encode_utf8(config.credentials());
    reveal_strlit("Basic ");
    assert forall|i: int| 0 <= i < text.len() implies 32 <= (#[trigger] text[i]) as int <= 126 by {
        if i >= 6 {
            lemma_sextet_range(bytes, i - 6);
            lemma_symbols(sextet(bytes, i - 6), 0);
        }
    }
    assert(vstd::utf8::is_ascii_chars(text)) by {
        assert forall|i: int| 0 <= i < text.len() implies '\0' <= #[trigger] text[i] <= '\u{7f}' by {
            assert(32 <= text[i] as int <= 126);
        }
    }
    vstd::utf8::is_ascii_chars_encode_utf8(text);
    assert forall|i: int| 0 <= i < encode_utf8(text).len() implies (#[trigger] encode_utf8(text)[i]
        >= 32 && encode_utf8(text)[i] != 127) || encode_utf8(text)[i] == 9 by {
        assert(32 <= text[i] as int <= 126);
        assert(text[i] as u8 == encode_utf8(text)[i]);
    }
}

/// A block of three bytes is its four groups of six bits.
proof fn lemma_block_from_sextets(bytes: Seq<u8>, block: int)
    requires
        0 <= block,
    ensures
        block_value(bytes, block) == sextet(bytes, 4 * block) * 262144 + sextet(
            bytes,
            4 * block + 1,
        ) * 4096 + sextet(bytes, 4 * block + 2) * 64 + sextet(bytes, 4 * block + 3),
{
    let value = block_value(bytes, block);
    assert(0 <= value < 16777216);
    assert((4 * block) / 4 == block && (4 * block + 1) / 4 == block && (4 * block + 2) / 4 == block
        && (4 * block + 3) / 4 == block);
    assert(value / 4096 == value / 262144 * 64 + value / 4096 % 64);
    assert(value / 64 == value / 4096 * 64 + value / 64 % 64);
    assert(value == value / 64 * 64 + value % 64);
}

/// Bytes are not longer than others with the same base64 text.
proof fn lemma_base64_not_longer(a: Seq<u8>, b: Seq<u8>)
    requires
        base64_text(a) == base64_text(b),
    ensures
        a.len() <= b.len(),
{
    if a.len() > b.len() {
        // The first place past the characters of b still holds one of a.
        let i: int = (4 * b.len() as int + 2) / 3;
        assert(base64_text(a).len() == base64_text(b).len());
        assert(3 * i < 4 * a.len());
        assert(0 <= i < base64_text(b).len());
        assert(base64_text(b)[i] == '=');
        lemma_sextet_range(a, i);
        lemma_symbols(sextet(a, i), 0);
        assert(base64_text(a)[i] != '=');
    }
}

/// Equal base64 texts are texts of equal bytes: the encoding loses nothing.
pub proof fn law_base64_identifies_bytes(a: Seq<u8>, b: Seq<u8>)
    requires
        base64_text(a) == base64_text(b),
    ensures
        a == b,
{
    let text = base64_text(a);
    lemma_base64_not_longer(a, b);
    lemma_base64_not_longer(b, a);
    let n = a.len();
    assert forall|i: int| 0 <= i < n implies a[i] == b[i] by {
        let block = i / 3;
        assert forall|k: int| 4 * block <= k < 4 * block + 4 implies sextet(a, k) == sextet(b, k) by {
            if 3 * k < 4 * n {
                assert(text[k] == base64_symbol(sextet(a, k)));
                assert(base64_text(b)[k] == base64_symbol(sextet(b, k)));
                lemma_sextet_range(a, k);
                lemma_sextet_range(b, k);
                lemma_symbols(sextet(a, k), sextet(b, k));
            } else {
                lemma_padding_is_zero(a, k);
                lemma_padding_is_zero(b, k);
            }
        }
        lemma_block_from_sextets(a, block);
        lemma_block_from_sextets(b, block);
        assert(block_value(a, block) == block_value(b, block));
        lemma_bytes_from_block(a, b, block);
        assert(byte_at(a, i) == byte_at(b, i));
    }
    assert(a =~= b);
}

/// Past the last character of a text the bits are 0.
proof fn lemma_padding_is_zero(bytes: Seq<u8>, k: int)
    requires
        0 <= k,
        3 * k >= 4 * bytes.len(),
    ensures
        sextet(bytes, k) == 0,
{
    let block = k / 4;
    if k % 4 == 2 {
        assert(byte_at(bytes, 3 * block + 2) == 0);
        assert(byte_at(bytes, 3 * block + 1) == 0);
    } else if k % 4 == 3 {
        assert(byte_at(bytes, 3 * block + 2) == 0);
    } else if k % 4 == 1 {
        assert(byte_at(bytes, 3 * block) == 0);
    }
}

/// Blocks with the same value hold the same bytes.
proof fn lemma_bytes_from_block(a: Seq<u8>, b: Seq<u8>, block: int)
    requires
        0 <= block,
        block_value(a, block) == block_value(b, block),
    ensures
        byte_at(a, 3 * block) == byte_at(b, 3 * block),
        byte_at(a, 3 * block + 1) == byte_at(b, 3 * block + 1),
        byte_at(a, 3 * block + 2) == byte_at(b, 3 * block + 2),
{
}

/// Two registries are signed in to with the same header exactly where user and
/// password, joined by a colon, are the same.
pub proof fn law_authorization_identifies_credentials(a: HarborConfigView, b: HarborConfigView)
    ensures
        a.basic_auth() == b.basic_auth() <==> a.credentials() == b.credentials(),
{
    if a.basic_auth() == b.basic_auth() {
        let (x, y) = (encode_utf8(a.credentials()), encode_utf8(b.credentials()));
        assert(base64_text(x) =~= a.basic_auth().skip("Basic "@.len() as int));
        assert(base64_text(y) =~= b.basic_auth().skip("Basic "@.len() as int));
        law_base64_identifies_bytes(x, y);
        vstd::utf8::encode_utf8_decode_utf8(a.credentials());
        vstd::utf8::encode_utf8_decode_utf8(b.credentials());
    }
}

/// The six bits that a character of a base64 text stands for. The padding
/// stands for zeros.
pub open spec fn base64_bits(symbol: char) -> int {
    if 'A' <= symbol <= 'Z' {
        symbol as int - 'A' as int
    } else if 'a' <= symbol <= 'z' {
        symbol as int - 'a' as int + 26
    } else if '0' <= symbol <= '9' {
        symbol as int - '0' as int + 52
    } else if symbol == '+' {
        62
    } else if symbol == '/' {
        63
    } else {
        0
    }
}

/// How many characters of padding a base64 text ends with.
pub open spec fn base64_padding(text: Seq<char>) -> int {
    if text.len() < 4 || text[text.len() - 1] != '=' {
        0
    } else if text[text.len() - 2] != '=' {
        1
    } else {
        2
    }
}

/// The bytes that a base64 text stands for: four characters are the bits of
/// three bytes.
pub open spec fn base64_bytes(text: Seq<char>) -> Seq<u8> {
    Seq::new(
        (text.len() / 4 * 3 - base64_padding(text)) as nat,
        |i: int|
            {
                let first = i / 3 * 4;
                let bits = ((base64_bits(text[first]) * 64 + base64_bits(text[first + 1])) * 64
                    + base64_bits(text[first + 2])) * 64 + base64_bits(text[first + 3]);
                if i % 3 == 0 {
                    (bits / 65536) as u8
                } else if i % 3 == 1 {
                    (bits / 256 % 256) as u8
                } else {
                    (bits % 256) as u8
                }
            },
    )
}

/// A character of the alphabet stands for the bits that it was chosen for.
proof fn lemma_bits_of_symbol(bits: int)
    requires
        0 <= bits < 64,
    ensures
        base64_bits(base64_symbol(bits)) == bits,
{
}

/// A character of a base64 text stands for its six bits, also where it is
/// padding.
proof fn lemma_bits_of_text(bytes: Seq<u8>, i: int)
    requires
        0 <= i < base64_text(bytes).len(),
    ensures
        base64_bits(base64_text(bytes)[i]) == sextet(bytes, i),
{
    if 3 * i < 4 * bytes.len() {
        lemma_sextet_range(bytes, i);
        lemma_bits_of_symbol(sextet(bytes, i));
    } else {
        lemma_padding_is_zero(bytes, i);
    }
}

/// As many characters are padding as bytes are missing from the last block.
proof fn lemma_padding_of_text(bytes: Seq<u8>)
    ensures
        base64_text(bytes).len() / 4 * 3 - base64_padding(base64_text(bytes)) == bytes.len(),
{
    let text = base64_text(bytes);
    let n = bytes.len();
    if n > 0 {
        let last = text.len() - 1;
        assert(text.len() >= 4);
        lemma_sextet_range(bytes, last);
        lemma_sextet_range(bytes, last - 1);
        lemma_symbols(sextet(bytes, last), 0);
        lemma_symbols(sextet(bytes, last - 1), 0);
        assert(text[last] == '=' <==> 3 * last >= 4 * n);
        assert(text[last - 1] == '=' <==> 3 * (last - 1) >= 4 * n);
    }
}

/// Three bytes can be taken from the number that they make up.
proof fn lemma_bytes_of_value(a: int, b: int, c: int)
    requires
        0 <= a < 256,
        0 <= b < 256,
        0 <= c < 256,
    ensures
        (a * 65536 + b * 256 + c) / 65536 == a,
        (a * 65536 + b * 256 + c) / 256 % 256 == b,
        (a * 65536 + b * 256 + c) % 256 == c,
{
}

/// A base64 text stands for the bytes that it was made of.
#[verifier::rlimit(40)]
pub proof fn law_base64_is_read_back(bytes: Seq<u8>)
    ensures
        base64_bytes(base64_text(bytes)) == bytes,
{
    let text = base64_text(bytes);
    lemma_padding_of_text(bytes);
    assert forall|i: int| 0 <= i < bytes.len() implies #[trigger] base64_bytes(text)[i]
        == bytes[i] by {
        let block = i / 3;
        assert(4 * block + 3 < text.len());
        lemma_bits_of_text(bytes, 4 * block);
        lemma_bits_of_text(bytes, 4 * block + 1);
        lemma_bits_of_text(bytes, 4 * block + 2);
        lemma_bits_of_text(bytes, 4 * block + 3);
        lemma_block_from_sextets(bytes, block);
        let bits = ((sextet(bytes, 4 * block) * 64 + sextet(bytes, 4 * block + 1)) * 64 + sextet(
            bytes,
            4 * block + 2,
        )) * 64 + sextet(bytes, 4 * block + 3);
        assert(bits == block_value(bytes, block));
        assert(i / 3 * 4 == 4 * block);
        lemma_bytes_of_value(
            byte_at(bytes, 3 * block),
            byte_at(bytes, 3 * block + 1),
            byte_at(bytes, 3 * block + 2),
        );
        assert(i == 3 * block + i % 3);
    }
    assert(base64_bytes(text) =~= bytes);
}

/// A base64 text is as long as it has to be: whole groups of four characters,
/// with three bytes in each but the last.
pub proof fn law_base64_is_no_longer_than_needed(bytes: Seq<u8>)
    ensures
        base64_text(bytes).len() == base64_len(bytes.len()),
        base64_len(bytes.len()) % 4 == 0,
        4 * bytes.len() <= 3 * base64_len(bytes.len()) < 4 * bytes.len() + 12,
{
}

/// The bytes of two texts in a row are the bytes of the one and of the other.
proof fn lemma_encode_concat(a: Seq<char>, b: Seq<char>)
    ensures
        encode_utf8(a + b) == encode_utf8(a) + encode_utf8(b),
    decreases a.len(),
{
    if a.len() == 0 {
        assert(a + b =~= b);
        assert(encode_utf8(a) + encode_utf8(b) =~= encode_utf8(b));
    } else {
        lemma_encode_concat(a.drop_first(), b);
        assert((a + b).drop_first() =~= a.drop_first() + b);
        assert(encode_utf8(a + b) =~= encode_utf8(a) + encode_utf8(b));
    }
}

/// The authorization carries the whole user name and the whole password: what
/// follows `Basic ` stands for the bytes of the one, a colon, and the bytes of
/// the other.
pub proof fn law_authorization_carries_user_and_password(config: HarborConfigView)
    ensures
        config.basic_auth().take(6) == "Basic "@,
        base64_bytes(config.basic_auth().skip(6)) == encode_utf8(config.username) + seq![58u8]
            + encode_utf8(config.password),
{
    reveal_strlit("Basic ");
    reveal_strlit(":");
    let bytes = encode_utf8(config.credentials());
    assert(config.basic_auth().take(6) =~= "Basic "@);
    assert(config.basic_auth().skip(6) =~= base64_text(bytes));
    law_base64_is_read_back(bytes);
    lemma_encode_concat(config.username + ":"@, config.password);
    lemma_encode_concat(config.username, ":"@);
    assert(encode_utf8(":"@) =~= seq![58u8]) by {
        assert(vstd::utf8::is_ascii_chars(":"@));
        vstd::utf8::is_ascii_chars_encode_utf8(":"@);
        assert(encode_utf8(":"@)[0] == ':' as u8);
    }
}

/// Two users of one name with different passwords sign in with different
/// headers, however the passwords differ.
pub proof fn law_authorization_tells_passwords_apart(a: HarborConfigView, b: HarborConfigView)
    requires
        a.username == b.username,
        a.basic_auth() == b.basic_auth(),
    ensures
        a.password == b.password,
{
    law_authorization_carries_user_and_password(a);
    law_authorization_carries_user_and_password(b);
    let head = encode_utf8(a.username) + seq![58u8];
    let (x, y) = (encode_utf8(a.password), encode_utf8(b.password));
    assert(head + x == head + y);
    assert(x =~= (head + x).skip(head.len() as int));
    assert(y =~= (head + y).skip(head.len() as int));
    vstd::utf8::encode_utf8_decode_utf8(a.password);
    vstd::utf8::encode_utf8_decode_utf8(b.password);
}

/// User names being without a colon, a header tells the user name and the
/// password that it was made of.
pub proof fn law_authorization_tells_users_apart(a: HarborConfigView, b: HarborConfigView)
    requires
        !a.username.contains(':'),
        !b.username.contains(':'),
        a.basic_auth() == b.basic_auth(),
    ensures
        a.username == b.username,
        a.password == b.password,
{
    reveal_strlit(":");
    assert(":"@ =~= seq![':']);
    law_authorization_carries_user_and_password(a);
    law_authorization_carries_user_and_password(b);
    let x = a.username + seq![':'] + a.password;
    let y = b.username + seq![':'] + b.password;
    lemma_encode_concat(a.username + seq![':'], a.password);
    lemma_encode_concat(a.username, seq![':']);
    lemma_encode_concat(b.username + seq![':'], b.password);
    lemma_encode_concat(b.username, seq![':']);
    assert(encode_utf8(seq![':']) =~= seq![58u8]) by {
        assert(vstd::utf8::is_ascii_chars(seq![':']));
        vstd::utf8::is_ascii_chars_encode_utf8(seq![':']);
        assert(encode_utf8(seq![':'])[0] == ':' as u8);
    }
    assert(encode_utf8(x) == encode_utf8(y));
    vstd::utf8::encode_utf8_decode_utf8(x);
    vstd::utf8::encode_utf8_decode_utf8(y);
    lemma_cut_at_first(a.username, a.password, b.username, b.password, ':');
}

/// An authorization fits in memory wherever its text is no longer than memory
/// can be.
pub proof fn law_authorization_fits_unless_too_long(config: HarborConfigView)
    ensures
        config.auth_fits() <==> config.basic_auth().len() - 6 <= isize::MAX,
        config.auth_fits() <==> (encode_utf8(config.username).len() + 1 + encode_utf8(
            config.password,
        ).len() + 2) / 3 * 4 <= isize::MAX,
{
    reveal_strlit("Basic ");
    law_authorization_carries_user_and_password(config);
    let bytes = encode_utf8(config.credentials());
    assert(config.basic_auth().skip(6) =~= base64_text(bytes));
    law_base64_is_read_back(bytes);
    law_base64_is_no_longer_than_needed(bytes);
}

} // verus!
