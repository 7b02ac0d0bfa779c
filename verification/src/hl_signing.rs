//! Signs the actions of Hyperliquid: the hash of an action, the typed data around it, and the
//! signature in the form in which it is sent.
use vstd::prelude::*;
use vstd::string::*;
use crate::types;
use crate::text;
use crate::decimal;
use crate::decimal::Decimal;
use crate::json::{Json, JsonView};
use crate::text::{join2, number_text, same_text, trim_trailing, without_prefix};
use crate::types::now_ms;
use crate::wire;
use crate::wire::packed;

verus! {

/// Why an action could not be signed.
#[derive(Debug)]
pub enum SigningError {
    InvalidPrivateKey(String),
    SigningFailed(String),
    MsgpackError(String),
}

impl SigningError {
    /// The message of the error.
    pub open spec fn message(&self) -> Seq<char> {
        match self {
            SigningError::InvalidPrivateKey(s) => "Invalid private key: "@ + s@,
            SigningError::SigningFailed(s) => "Signing failed: "@ + s@,
            SigningError::MsgpackError(s) => "Msgpack encoding failed: "@ + s@,
        }
    }

    /// The message of the error.
    pub fn to_string(&self) -> (r: String)
        ensures
            r@ == self.message(),
    {
        match self {
            SigningError::InvalidPrivateKey(s) => join2("Invalid private key: ", s.as_str()),
            SigningError::SigningFailed(s) => join2("Signing failed: ", s.as_str()),
            SigningError::MsgpackError(s) => join2("Msgpack encoding failed: ", s.as_str()),
        }
    }
}

/// The Keccak-256 digest of bytes.
pub uninterp spec fn keccak_digest(data: Seq<u8>) -> Seq<u8>;

/// `sha3::Keccak256` over the bytes. The digest is named; its length is that of the array.
#[verifier::external_body]
fn keccak256(data: &[u8]) -> (r: [u8; 32])
    ensures
        r@ == keccak_digest(data@),
{
    let mut hasher = <sha3::Keccak256 as sha3::Digest>::new();
    sha3::Digest::update(&mut hasher, data);
    sha3::Digest::finalize(hasher).into()
}

/// The value of a hexadecimal digit, if `c` is one.
pub open spec fn hex_value(c: char) -> Option<int> {
    if '0' <= c && c <= '9' {
        Some(c as int - '0' as int)
    } else if 'a' <= c && c <= 'f' {
        Some(c as int - 'a' as int + 10)
    } else if 'A' <= c && c <= 'F' {
        Some(c as int - 'A' as int + 10)
    } else {
        None
    }
}

/// The text is made of pairs of hexadecimal digits.
pub open spec fn is_hex(s: Seq<char>) -> bool {
    s.len() % 2 == 0 && forall|i: int| 0 <= i < s.len() ==> hex_value(#[trigger] s[i]) is Some
}

/// The bytes that pairs of hexadecimal digits denote.
pub open spec fn hex_bytes(s: Seq<char>) -> Seq<u8> {
    Seq::new(
        (s.len() / 2) as nat,
        |i: int| (16 * hex_value(s[2 * i])->0 + hex_value(s[2 * i + 1])->0) as u8,
    )
}

/// What is wrong with a text that is not made of pairs of hexadecimal digits.
pub uninterp spec fn hex_fault(s: Seq<char>) -> Seq<char>;

/// `hex::decode`: the bytes where the text is made of pairs of hexadecimal digits, and
/// otherwise an error whose message is named.
#[verifier::external_body]
fn hex_decode(s: &str) -> (r: Result<Vec<u8>, String>)
    ensures
        match r {
            Ok(b) => is_hex(s@) && b@ == hex_bytes(s@),
            Err(e) => !is_hex(s@) && e@ == hex_fault(s@),
        },
{
    hex::decode(s).map_err(|e| e.to_string())
}

/// Bytes in hexadecimal digits, two for each.
pub open spec fn hex_form(b: Seq<u8>) -> Seq<char>
    decreases b.len(),
{
    if b.len() == 0 {
        Seq::empty()
    } else {
        hex_form(b.drop_last()) + types::hex_word(b.last() as nat, 2)
    }
}

/// `hex::encode`: two small hexadecimal digits for each byte, in order.
#[verifier::external_body]
fn hex_encode(b: &[u8]) -> (r: String)
    ensures
        r@ == hex_form(b@),
{
    hex::encode(b)
}

/// The address of the wallet of a private key, or what is wrong with the key.
pub uninterp spec fn wallet_address(key: Seq<char>) -> Result<Seq<char>, Seq<char>>;

/// `LocalWallet::from_str` of ethers-signers, and the address of that wallet in its `Debug`
/// form. The result, and the message of the error, are named.
#[verifier::external_body]
fn open_wallet(key: &str) -> (r: Result<String, String>)
    ensures
        match r {
            Ok(a) => wallet_address(key@) == Ok::<Seq<char>, Seq<char>>(a@),
            Err(e) => wallet_address(key@) == Err::<Seq<char>, Seq<char>>(e@),
        },
{
    key.parse::<ethers_signers::LocalWallet>()
        .map(|w| format!("{:?}", ethers_signers::Signer::address(&w)))
        .map_err(|e| format!("{}", e))
}

/// The two numbers of the signature of a digest with a private key, most significant byte
/// first, and its recovery byte; or what went wrong.
pub uninterp spec fn wallet_signature(
    key: Seq<char>,
    digest: Seq<u8>,
) -> Result<(Seq<u8>, Seq<u8>, u64), Seq<char>>;

/// `LocalWallet::sign_hash` of ethers-signers, with the wallet of the key. The nonce of the
/// signature is derived from key and digest, so the result is named. The recovery byte is the
/// recovery number, which is at most three, plus 27.
#[verifier::external_body]
fn sign_digest(key: &str, digest: &[u8; 32]) -> (r: Result<([u8; 32], [u8; 32], u64), String>)
    ensures
        match r {
            Ok(s) => wallet_signature(key@, digest@) == Ok::<(Seq<u8>, Seq<u8>, u64), Seq<char>>(
                (s.0@, s.1@, s.2),
            ) && 27 <= s.2 <= 30,
            Err(e) => wallet_signature(key@, digest@) == Err::<(Seq<u8>, Seq<u8>, u64), Seq<char>>(
                e@,
            ),
        },
{
    let wallet = key.parse::<ethers_signers::LocalWallet>().map_err(|e| e.to_string())?;
    wallet
        .sign_hash(ethers_core::types::H256::from_slice(digest))
        .map(|s| (s.r.into(), s.s.into(), s.v))
        .map_err(|e| e.to_string())
}

/// The last `width` bytes of a number, most significant first.
pub open spec fn big_endian(n: nat, width: nat) -> Seq<u8>
    decreases width,
{
    if width == 0 {
        Seq::empty()
    } else {
        big_endian(n / 256, (width - 1) as nat).push((n % 256) as u8)
    }
}

/// The last `width` bytes of a number, most significant first.
fn big_endian_bytes(n: u64, width: u32) -> (r: Vec<u8>)
    ensures
        r@ == big_endian(n as nat, width as nat),
    decreases width,
{
    if width == 0 {
        Vec::new()
    } else {
        let mut v = big_endian_bytes(n / 256, width - 1);
        v.push((n % 256) as u8);
        v
    }
}

fn extend(v: &mut Vec<u8>, more: &[u8])
    ensures
        final(v)@ == old(v)@ + more@,
{
    v.extend_from_slice(more);
    assert(v@ =~= old(v)@ + more@);
}

/// A text without `0x` in front of it.
pub open spec fn unprefixed(s: Seq<char>) -> Seq<char> {
    if text::begins_with(s, "0x"@) {
        s.subrange(2, s.len() as int)
    } else {
        s
    }
}

fn strip_0x<'a>(s: &'a str) -> (r: &'a str)
    ensures
        r@ == unprefixed(s@),
{
    proof {
        reveal_strlit("0x");
    }
    match without_prefix(s, "0x") {
        Some(rest) => {
            assert(rest@ =~= s@.subrange(2, s@.len() as int));
            rest
        },
        None => s,
    }
}

/// What is wrong with an address that is not made of forty hexadecimal digits.
pub open spec fn address_fault(address: Seq<char>) -> Seq<char> {
    if is_hex(address) {
        "Invalid address length: "@ + text::digits((address.len() / 2) as nat)
    } else {
        hex_fault(address)
    }
}

/// The address is made of forty hexadecimal digits.
pub open spec fn is_address(address: Seq<char>) -> bool {
    is_hex(address) && address.len() == 40
}

/// The twenty bytes of an address in hexadecimal digits.
pub fn address_to_bytes(address: &str) -> (r: Result<Vec<u8>, SigningError>)
    ensures
        ({
            let a = unprefixed(address@);
            match r {
                Ok(b) => is_address(a) && b@ == hex_bytes(a),
                Err(e) => !is_address(a) && (e matches SigningError::InvalidPrivateKey(s)
                    && s@ == address_fault(a)),
            }
        }),
{
    match hex_decode(strip_0x(address)) {
        Err(e) => Err(SigningError::InvalidPrivateKey(e)),
        Ok(bytes) => {
            if bytes.len() != 20 {
                return Err(
                    SigningError::InvalidPrivateKey(
                        join2(
                            "Invalid address length: ",
                            number_text(bytes.len() as u128).as_str(),
                        ),
                    ),
                );
            }
            Ok(bytes)
        },
    }
}

/// What is hashed of an action: its bytes, the nonce, the vault and the time it expires.
pub open spec fn action_data(
    action: Seq<u8>,
    nonce: u64,
    vault: Option<Seq<u8>>,
    expires_after: Option<u64>,
) -> Seq<u8> {
    action + big_endian(nonce as nat, 8) + (match vault {
        Some(v) => seq![1u8] + v,
        None => seq![0u8],
    }) + (match expires_after {
        Some(t) => seq![0u8] + big_endian(t as nat, 8),
        None => Seq::empty(),
    })
}

/// The separator of the domain in which actions are signed.
pub open spec fn domain_separator() -> Seq<u8> {
    keccak_digest(
        keccak_digest(
            vstd::utf8::encode_utf8(
                "EIP712Domain(string name,string version,uint256 chainId,address verifyingContract)"@,
            ),
        ) + keccak_digest(vstd::utf8::encode_utf8("Exchange"@)) + keccak_digest(vstd::utf8::encode_utf8("1"@))
            + big_endian(1337, 32) + big_endian(0, 32),
    )
}

/// What is signed of an action hash: the hash of the agent in the domain.
pub open spec fn agent_digest(source: Seq<char>, connection_id: Seq<u8>) -> Seq<u8> {
    keccak_digest(
        seq![0x19u8, 0x01u8] + domain_separator() + keccak_digest(
            keccak_digest(vstd::utf8::encode_utf8("Agent(string source,bytes32 connectionId)"@))
                + keccak_digest(vstd::utf8::encode_utf8(source)) + connection_id,
        ),
    )
}

fn compute_domain_separator() -> (r: [u8; 32])
    ensures
        r@ == domain_separator(),
{
    let mut encoded: Vec<u8> = Vec::new();
    extend(
        &mut encoded,
        &keccak256(
            "EIP712Domain(string name,string version,uint256 chainId,address verifyingContract)".as_bytes(),
        ),
    );
    extend(&mut encoded, &keccak256("Exchange".as_bytes()));
    extend(&mut encoded, &keccak256("1".as_bytes()));
    extend(&mut encoded, big_endian_bytes(1337, 32).as_slice());
    extend(&mut encoded, big_endian_bytes(0, 32).as_slice());
    assert(encoded@ =~= keccak_digest(
        vstd::utf8::encode_utf8(
            "EIP712Domain(string name,string version,uint256 chainId,address verifyingContract)"@,
        ),
    ) + keccak_digest(vstd::utf8::encode_utf8("Exchange"@)) + keccak_digest(vstd::utf8::encode_utf8("1"@)) + big_endian(
        1337,
        32,
    ) + big_endian(0, 32));
    keccak256(encoded.as_slice())
}

fn compute_agent_digest(source: &str, connection_id: &[u8]) -> (r: [u8; 32])
    ensures
        r@ == agent_digest(source@, connection_id@),
{
    let mut inner: Vec<u8> = Vec::new();
    extend(&mut inner, &keccak256("Agent(string source,bytes32 connectionId)".as_bytes()));
    extend(&mut inner, &keccak256(source.as_bytes()));
    extend(&mut inner, connection_id);
    assert(inner@ =~= keccak_digest(
        vstd::utf8::encode_utf8("Agent(string source,bytes32 connectionId)"@),
    ) + keccak_digest(vstd::utf8::encode_utf8(source@)) + connection_id@);
    let mut outer: Vec<u8> = Vec::new();
    outer.push(0x19);
    outer.push(0x01);
    assert(outer@ =~= seq![0x19u8, 0x01u8]);
    extend(&mut outer, &compute_domain_separator());
    extend(&mut outer, &keccak256(inner.as_slice()));
    keccak256(outer.as_slice())
}

/// A signature as it is sent.
#[derive(Debug)]
pub struct HyperliquidSignature {
    pub r: String,
    pub s: String,
    pub v: u8,
}

impl HyperliquidSignature {
    /// The signature as a member of a request.
    pub fn to_json(&self) -> (j: Json)
        ensures
            j@ == JsonView::Record(
                seq![
                    ("r"@, JsonView::Text(self.r@)),
                    ("s"@, JsonView::Text(self.s@)),
                    ("v"@, JsonView::Whole(self.v as u64)),
                ],
            ),
    {
        let j = Json::record().with("r", Json::text(self.r.as_str())).with(
            "s",
            Json::text(self.s.as_str()),
        ).with("v", Json::Whole(self.v as u64));
        assert(j@->Record_0 =~= seq![
            ("r"@, JsonView::Text(self.r@)),
            ("s"@, JsonView::Text(self.s@)),
            ("v"@, JsonView::Whole(self.v as u64)),
        ]);
        j
    }
}

/// Whether the vault is one, and its bytes.
pub open spec fn vault_bytes(vault: Option<Seq<char>>) -> Option<Seq<u8>> {
    match vault {
        Some(v) => Some(hex_bytes(unprefixed(v))),
        None => None,
    }
}

/// The vault, where there is one, is an address.
pub open spec fn vault_valid(vault: Option<Seq<char>>) -> bool {
    match vault {
        Some(v) => is_address(unprefixed(v)),
        None => true,
    }
}

/// The text behind a reference that may be missing.
pub open spec fn text_view(s: Option<&str>) -> Option<Seq<char>> {
    match s {
        Some(t) => Some(t@),
        None => None,
    }
}

/// The reply to a request to hash an action whose bytes are given: the hash, unless the vault is no
/// address.
pub open spec fn is_hashed(
    r: Result<[u8; 32], SigningError>,
    action: Seq<u8>,
    nonce: u64,
    vault: Option<Seq<char>>,
    expires_after: Option<u64>,
) -> bool {
    match r {
        Ok(h) => vault_valid(vault) && h@ == keccak_digest(
            action_data(action, nonce, vault_bytes(vault), expires_after),
        ),
        Err(e) => !vault_valid(vault) && (e matches SigningError::InvalidPrivateKey(s) && s@
            == address_fault(unprefixed(vault->0))),
    }
}

/// Signs actions with a private key.
#[derive(Debug)]
pub struct HyperliquidSigner {
    /// In hexadecimal digits, without prefix.
    key: String,
    address: String,
    is_mainnet: bool,
}

impl HyperliquidSigner {
    /// The private key.
    pub closed spec fn key(&self) -> Seq<char> {
        self.key@
    }

    /// The address of the wallet.
    pub closed spec fn address(&self) -> Seq<char> {
        self.address@
    }

    /// Whether real money is at stake.
    pub closed spec fn mainnet(&self) -> bool {
        self.is_mainnet
    }

    /// A signer with a private key in hexadecimal digits.
    pub fn new(private_key: &str, is_mainnet: bool) -> (r: Result<HyperliquidSigner, SigningError>)
        ensures
            match r {
                Ok(s) => s.key() == unprefixed(private_key@) && s.mainnet() == is_mainnet
                    && wallet_address(s.key()) == Ok::<Seq<char>, Seq<char>>(s.address()),
                Err(e) => e matches SigningError::InvalidPrivateKey(t) && wallet_address(
                    unprefixed(private_key@),
                ) == Err::<Seq<char>, Seq<char>>(t@),
            },
    {
        let key = strip_0x(private_key);
        match open_wallet(key) {
            Ok(address) => Ok(HyperliquidSigner { key: key.to_owned(), address, is_mainnet }),
            Err(e) => Err(SigningError::InvalidPrivateKey(e)),
        }
    }

    /// The source that tells the network.
    pub open spec fn source_text(&self) -> Seq<char> {
        if self.mainnet() {
            "a"@
        } else {
            "b"@
        }
    }

    fn source(&self) -> (r: &'static str)
        ensures
            r@ == self.source_text(),
    {
        if self.is_mainnet {
            "a"
        } else {
            "b"
        }
    }

    /// The hash of an action. There is none where it cannot be turned into bytes, or where the vault
    /// is no address.
    pub fn action_hash(
        &self,
        action: &Json,
        nonce: u64,
        vault_address: Option<&str>,
        expires_after: Option<u64>,
    ) -> (r: Result<[u8; 32], SigningError>)
        ensures
            r matches Err(SigningError::MsgpackError(_)) || is_hashed(
                r,
                wire::msgpack_bytes(wire::sent(action@)),
                nonce,
                text_view(vault_address),
                expires_after,
            ),
    {
        match packed(action) {
            Err(e) => Err(SigningError::MsgpackError(e)),
            Ok(bytes) => self.packed_action_hash(&bytes, nonce, vault_address, expires_after),
        }
    }

    /// The hash of an action that was turned into bytes.
    pub fn packed_action_hash(
        &self,
        action: &Vec<u8>,
        nonce: u64,
        vault_address: Option<&str>,
        expires_after: Option<u64>,
    ) -> (r: Result<[u8; 32], SigningError>)
        ensures
            is_hashed(r, action@, nonce, text_view(vault_address), expires_after),
    {
        let mut data: Vec<u8> = Vec::new();
        extend(&mut data, action.as_slice());
        extend(&mut data, big_endian_bytes(nonce, 8).as_slice());
        let ghost head = data@;
        match vault_address {
            Some(vault) => match address_to_bytes(vault) {
                Ok(bytes) => {
                    data.push(0x01);
                    extend(&mut data, bytes.as_slice());
                    assert(data@ =~= head + (seq![1u8] + bytes@));
                },
                Err(e) => {
                    return Err(e);
                },
            },
            None => {
                data.push(0x00);
                assert(data@ =~= head + seq![0u8]);
            },
        }
        let ghost middle = data@;
        match expires_after {
            Some(t) => {
                data.push(0x00);
                extend(&mut data, big_endian_bytes(t, 8).as_slice());
                assert(data@ =~= middle + (seq![0u8] + big_endian(t as nat, 8)));
            },
            None => {
                assert(data@ =~= middle + Seq::<u8>::empty());
            },
        }
        assert(data@ =~= action_data(
            action@,
            nonce,
            vault_bytes(text_view(vault_address)),
            expires_after,
        ));
        Ok(keccak256(data.as_slice()))
    }

    /// What is signed of an action.
    pub open spec fn digest_of(
        &self,
        action: Seq<u8>,
        nonce: u64,
        vault: Option<Seq<char>>,
        expires_after: Option<u64>,
    ) -> Seq<u8> {
        agent_digest(
            self.source_text(),
            keccak_digest(action_data(action, nonce, vault_bytes(vault), expires_after)),
        )
    }

    /// The reply to a request to sign an action whose bytes are given: the signature, unless the
    /// vault is no address or the wallet fails.
    pub open spec fn is_signed(
        &self,
        r: Result<HyperliquidSignature, SigningError>,
        action: Seq<u8>,
        nonce: u64,
        vault: Option<Seq<char>>,
        expires_after: Option<u64>,
    ) -> bool {
        let signed = wallet_signature(
            self.key(),
            self.digest_of(action, nonce, vault, expires_after),
        );
        match r {
            Ok(sig) => {
                &&& vault_valid(vault)
                &&& signed matches Ok(t)
                &&& sig.r@ == "0x"@ + hex_form(t.0)
                &&& sig.s@ == "0x"@ + hex_form(t.1)
                &&& sig.v == t.2
            },
            Err(SigningError::InvalidPrivateKey(s)) => !vault_valid(vault) && s@ == address_fault(
                unprefixed(vault->0),
            ),
            Err(SigningError::SigningFailed(e)) => vault_valid(vault) && signed == Err::<
                (Seq<u8>, Seq<u8>, u64),
                Seq<char>,
            >(e@),
            Err(_) => false,
        }
    }

    /// Signs an action. There is no signature where the action cannot be turned into bytes, where
    /// the vault is no address, or where the wallet fails.
    pub fn sign_l1_action(
        &self,
        action: &Json,
        nonce: u64,
        vault_address: Option<&str>,
        expires_after: Option<u64>,
    ) -> (r: Result<HyperliquidSignature, SigningError>)
        ensures
            r matches Err(SigningError::MsgpackError(_)) || self.is_signed(
                r,
                wire::msgpack_bytes(wire::sent(action@)),
                nonce,
                text_view(vault_address),
                expires_after,
            ),
    {
        match packed(action) {
            Err(e) => Err(SigningError::MsgpackError(e)),
            Ok(bytes) => self.sign_packed_action(&bytes, nonce, vault_address, expires_after),
        }
    }

    /// Signs an action that was turned into bytes.
    pub fn sign_packed_action(
        &self,
        action: &Vec<u8>,
        nonce: u64,
        vault_address: Option<&str>,
        expires_after: Option<u64>,
    ) -> (r: Result<HyperliquidSignature, SigningError>)
        ensures
            self.is_signed(r, action@, nonce, text_view(vault_address), expires_after),
    {
        match self.packed_action_hash(action, nonce, vault_address, expires_after) {
            Err(e) => Err(e),
            Ok(hash) => {
                let digest = compute_agent_digest(self.source(), &hash);
                match sign_digest(self.key.as_str(), &digest) {
                    Err(e) => Err(SigningError::SigningFailed(e)),
                    Ok(sig) => Ok(signature_to_hyperliquid(&sig.0, &sig.1, sig.2 as u8)),
                }
            },
        }
    }

    /// The address of the wallet.
    pub fn address_string(&self) -> (r: String)
        ensures
            r@ == self.address(),
    {
        self.address.clone()
    }
}

/// A signature as it is sent.
pub fn signature_to_hyperliquid(r: &[u8; 32], s: &[u8; 32], v: u8) -> (sig: HyperliquidSignature)
    ensures
        sig.r@ == "0x"@ + hex_form(r@),
        sig.s@ == "0x"@ + hex_form(s@),
        sig.v == v,
{
    HyperliquidSignature {
        r: join2("0x", hex_encode(r).as_str()),
        s: join2("0x", hex_encode(s).as_str()),
        v,
    }
}

/// A number as it is sent: at most eight fraction digits, without zeros at the end.
pub open spec fn wire_text(x: Decimal) -> Seq<char> {
    let t = text::without_trailing(text::without_trailing(decimal::fixed_text(x@), '0'), '.');
    if t.len() == 0 || t == "-0"@ {
        "0"@
    } else {
        t
    }
}

/// A number as it is sent: at most eight fraction digits, without zeros at the end.
pub fn decimal_to_wire(x: &Decimal) -> (r: String)
    ensures
        r@ == wire_text(*x),
{
    let fixed = x.to_fixed_string();
    let t = trim_trailing(trim_trailing(fixed.as_str(), '0'), '.');
    if t.unicode_len() == 0 || same_text(t, "-0") {
        "0".to_owned()
    } else {
        t.to_owned()
    }
}

/// The time in milliseconds, and zero before 1970.
pub fn timestamp_ms() -> (r: u64)
    ensures
        r <= i64::MAX,
{
    let now: i64 = now_ms();
    if now < 0 {
        0
    } else {
        now as u64
    }
}

pub proof fn lemma_big_endian_len(n: nat, width: nat)
    ensures
        big_endian(n, width).len() == width,
    decreases width,
{
    if width > 0 {
        lemma_big_endian_len(n / 256, (width - 1) as nat);
    }
}

proof fn lemma_big_endian_injective(a: nat, b: nat, width: nat, limit: nat)
    requires
        big_endian(a, width) == big_endian(b, width),
        limit == vstd::arithmetic::power::pow(256, width),
        a < limit,
        b < limit,
    ensures
        a == b,
    decreases width,
{
    reveal(vstd::arithmetic::power::pow);
    if width > 0 {
        let w = (width - 1) as nat;
        let p = vstd::arithmetic::power::pow(256, w);
        lemma_big_endian_len(a / 256, w);
        lemma_big_endian_len(b / 256, w);
        let x = big_endian(a, width);
        let y = big_endian(b, width);
        assert(x.drop_last() =~= big_endian(a / 256, w));
        assert(y.drop_last() =~= big_endian(b / 256, w));
        assert(x.last() == (a % 256) as u8);
        assert(y.last() == (b % 256) as u8);
        assert(limit == 256 * p);
        vstd::arithmetic::power::lemma_pow_positive(256, w);
        lemma_big_endian_injective(a / 256, b / 256, w, p as nat);
    }
}

/// Two nonces never give the same data to hash for one action, vault and expiry.
pub proof fn law_nonce_shows(
    action: Seq<u8>,
    a: u64,
    b: u64,
    vault: Option<Seq<u8>>,
    expires_after: Option<u64>,
)
    requires
        action_data(action, a, vault, expires_after) == action_data(
            action,
            b,
            vault,
            expires_after,
        ),
    ensures
        a == b,
{
    lemma_big_endian_len(a as nat, 8);
    lemma_big_endian_len(b as nat, 8);
    let x = action_data(action, a, vault, expires_after);
    let y = action_data(action, b, vault, expires_after);
    let n = action.len() as int;
    assert(x.subrange(n, n + 8) =~= big_endian(a as nat, 8));
    assert(y.subrange(n, n + 8) =~= big_endian(b as nat, 8));
    assert(vstd::arithmetic::power::pow(256, 8) == 18446744073709551616) by {
        reveal_with_fuel(vstd::arithmetic::power::pow, 9);
    }
    lemma_big_endian_injective(a as nat, b as nat, 8, 18446744073709551616);
}

} // verus!
