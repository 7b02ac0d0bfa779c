//! Texts say what they stand for: parts of texts, hexadecimal digits, coins and what is asked.
use vstd::prelude::*;
use crate::decimal;
use crate::hl_client;
use crate::hl_signing;
use crate::json;
use crate::order_laws;
use crate::text;
use crate::types;
use crate::decimal::Decimal;
use crate::hl_client::HyperliquidClient;
use crate::hl_signing::{HyperliquidSignature, HyperliquidSigner, SigningError};
use crate::json::JsonView;
use crate::types::{ClientOrderId, ExchangeOrderId, InstrumentId};

verus! {

/// What stands before the first of a character does not hold it, and the character or the end
/// follows.
pub proof fn law_part_before_the_first(s: Seq<char>, c: char)
    ensures
        ({
            let p = text::before_first(s, c);
            &&& p.len() <= s.len()
            &&& s.subrange(0, p.len() as int) == p
            &&& forall|i: int| 0 <= i < p.len() ==> #[trigger] p[i] != c
            &&& p.len() < s.len() ==> s[p.len() as int] == c
        }),
{
    lemma_first(s, c, 0);
}

proof fn lemma_first(s: Seq<char>, c: char, from: int)
    requires
        0 <= from <= s.len(),
    ensures
        from <= text::first_index(s, c, from) <= s.len(),
        forall|i: int| from <= i < text::first_index(s, c, from) ==> #[trigger] s[i] != c,
        text::first_index(s, c, from) < s.len() ==> s[text::first_index(s, c, from)] == c,
    decreases s.len() - from,
{
    if from < s.len() && s[from] != c {
        lemma_first(s, c, from + 1);
    }
}

/// What stands before the last of a character is followed by it, and then it comes no more; a
/// text without it is left whole.
pub proof fn law_part_before_the_last(s: Seq<char>, c: char)
    ensures
        ({
            let p = text::before_last(s, c);
            &&& p.len() <= s.len()
            &&& s.subrange(0, p.len() as int) == p
            &&& p.len() < s.len() ==> s[p.len() as int] == c && forall|i: int|
                p.len() < i < s.len() ==> #[trigger] s[i] != c
            &&& p.len() == s.len() <==> !s.contains(c)
        }),
    decreases s.len(),
{
    let p = text::before_last(s, c);
    if !s.contains(c) {
        assert(s.subrange(0, s.len() as int) =~= s);
    } else if s.last() == c {
        assert(s.subrange(0, s.len() - 1) =~= s.drop_last());
    } else {
        let t = s.drop_last();
        law_part_before_the_last(t, c);
        let j = choose|j: int| 0 <= j < s.len() && s[j] == c;
        assert(t[j] == c);
        assert(t.contains(c));
        assert(s.subrange(0, p.len() as int) =~= t.subrange(0, p.len() as int));
        assert(s[p.len() as int] == t[p.len() as int]);
        assert forall|i: int| p.len() < i < s.len() implies #[trigger] s[i] != c by {
            if i < t.len() {
                assert(s[i] == t[i]);
            }
        }
    }
}

/// Characters are taken from the end only, all of them, and no others.
pub proof fn law_trailing_characters_go(s: Seq<char>, c: char)
    ensures
        ({
            let p = text::without_trailing(s, c);
            &&& p.len() <= s.len()
            &&& s.subrange(0, p.len() as int) == p
            &&& p.len() > 0 ==> p.last() != c
            &&& forall|i: int| p.len() <= i < s.len() ==> #[trigger] s[i] == c
        }),
    decreases s.len(),
{
    let p = text::without_trailing(s, c);
    if s.len() > 0 && s.last() == c {
        let t = s.drop_last();
        law_trailing_characters_go(t, c);
        assert(s.subrange(0, p.len() as int) =~= t.subrange(0, p.len() as int));
        assert forall|i: int| p.len() <= i < s.len() implies #[trigger] s[i] == c by {
            if i < t.len() {
                assert(t[i] == c);
            }
        }
    } else {
        assert(s.subrange(0, s.len() as int) =~= s);
    }
}

/// Small letters and everything that is no letter stay; a capital becomes the letter at the same
/// place of the alphabet.
pub proof fn law_small_letters(c: char)
    ensures
        !('A' <= c && c <= 'Z') ==> text::lower_char(c) == c,
        'A' <= c && c <= 'Z' ==> text::lower_char(c) as int - 'a' as int == c as int - 'A' as int,
        text::lower_char(text::lower_char(c)) == text::lower_char(c),
{
    reveal_strlit("abcdefghijklmnopqrstuvwxyz");
}

/// A signed numeral shows the sign of the number, and its digits read back.
pub proof fn law_signed_number_reads_back(n: int)
    ensures
        n >= 0 ==> text::digits_value(text::signed_digits(n)) == Some(n as nat),
        n < 0 ==> ({
            let s = text::signed_digits(n);
            s.len() > 0 && s[0] == '-' && text::digits_value(s.subrange(1, s.len() as int)) == Some(
                (-n) as nat,
            )
        }),
{
    if n < 0 {
        text::lemma_digits_read_back((-n) as nat);
        let s = text::signed_digits(n);
        assert(s.subrange(1, s.len() as int) =~= text::digits((-n) as nat));
    } else {
        text::lemma_digits_read_back(n as nat);
    }
}

proof fn lemma_hex_digit(d: nat)
    requires
        d < 16,
    ensures
        hl_signing::hex_value("0123456789abcdef"@[d as int]) == Some(d as int),
{
    reveal_strlit("0123456789abcdef");
}

/// The number that hexadecimal digits denote.
pub open spec fn hex_number(s: Seq<char>) -> Option<int>
    decreases s.len(),
{
    if s.len() == 0 {
        Some(0)
    } else {
        match (hex_number(s.drop_last()), hl_signing::hex_value(s.last())) {
            (Some(high), Some(low)) => Some(16 * high + low),
            _ => None,
        }
    }
}

/// A word in hexadecimal digits has as many as were asked for, and denotes the number as far as
/// these go.
pub proof fn law_hex_word_reads_back(n: nat, width: nat, limit: nat)
    requires
        limit == vstd::arithmetic::power::pow(16, width),
    ensures
        types::hex_word(n, width).len() == width,
        hex_number(types::hex_word(n, width)) is Some,
        n < limit ==> hex_number(types::hex_word(n, width)) == Some(n as int),
    decreases width,
{
    reveal(vstd::arithmetic::power::pow);
    if width > 0 {
        let w = (width - 1) as nat;
        let p = vstd::arithmetic::power::pow(16, w);
        vstd::arithmetic::power::lemma_pow_positive(16, w);
        law_hex_word_reads_back(n / 16, w, p as nat);
        lemma_hex_digit(n % 16);
        let s = types::hex_word(n, width);
        assert(s.drop_last() =~= types::hex_word(n / 16, w));
    }
}

proof fn lemma_word_limit()
    ensures
        vstd::arithmetic::power::pow(16, 16) == 18446744073709551616,
{
    reveal_with_fuel(vstd::arithmetic::power::pow, 17);
}

/// Orders that are made from different words have different ids.
pub proof fn law_order_ids_are_told_apart(a: u64, b: u64, c: u64, d: u64)
    requires
        ClientOrderId::words_text(a, b) == ClientOrderId::words_text(c, d),
    ensures
        a == c,
        b == d,
{
    reveal_strlit("0x");
    lemma_word_limit();
    law_hex_word_reads_back(a as nat, 16, 18446744073709551616);
    law_hex_word_reads_back(b as nat, 16, 18446744073709551616);
    law_hex_word_reads_back(c as nat, 16, 18446744073709551616);
    law_hex_word_reads_back(d as nat, 16, 18446744073709551616);
    let (s, t) = (ClientOrderId::words_text(a, b), ClientOrderId::words_text(c, d));
    assert(s.subrange(2, 18) =~= types::hex_word(a as nat, 16));
    assert(t.subrange(2, 18) =~= types::hex_word(c as nat, 16));
    assert(s.subrange(18, 34) =~= types::hex_word(b as nat, 16));
    assert(t.subrange(18, 34) =~= types::hex_word(d as nat, 16));
}

/// Bytes in hexadecimal digits denote these bytes.
pub proof fn law_hex_reads_back(b: Seq<u8>)
    ensures
        hl_signing::hex_form(b).len() == 2 * b.len(),
        hl_signing::is_hex(hl_signing::hex_form(b)),
        hl_signing::hex_bytes(hl_signing::hex_form(b)) == b,
    decreases b.len(),
{
    let s = hl_signing::hex_form(b);
    if b.len() > 0 {
        let c = b.drop_last();
        let t = hl_signing::hex_form(c);
        law_hex_reads_back(c);
        let n = b.last() as nat;
        let w = types::hex_word(n, 2);
        reveal_with_fuel(types::hex_word, 3);
        lemma_hex_digit(n % 16);
        lemma_hex_digit((n / 16) % 16);
        assert(w.len() == 2);
        assert(w[1] == "0123456789abcdef"@[(n % 16) as int]);
        assert(w[0] == "0123456789abcdef"@[((n / 16) % 16) as int]);
        assert(s == t + w);
        assert forall|i: int| 0 <= i < s.len() implies hl_signing::hex_value(#[trigger] s[i]) is Some by {
            if i < t.len() {
                assert(s[i] == t[i]);
                assert(hl_signing::hex_value(t[i]) is Some);
            } else {
                assert(s[i] == w[i - t.len()]);
            }
        }
        let r = hl_signing::hex_bytes(s);
        assert forall|i: int| 0 <= i < b.len() implies #[trigger] r[i] == b[i] by {
            if i < c.len() {
                assert(s[2 * i] == t[2 * i] && s[2 * i + 1] == t[2 * i + 1]);
                assert(hl_signing::hex_bytes(t)[i] == c[i]);
            } else {
                assert(s[2 * i] == w[0] && s[2 * i + 1] == w[1]);
            }
        }
        assert(r =~= b);
    } else {
        assert(hl_signing::hex_bytes(s) =~= b);
    }
}

/// An address is the same with and without `0x` in front of it, and has twenty bytes.
pub proof fn law_address_is_the_same_with_its_prefix(address: Seq<char>)
    requires
        !text::begins_with(address, "0x"@),
    ensures
        hl_signing::unprefixed("0x"@ + address) == address,
        hl_signing::unprefixed(address) == address,
        hl_signing::vault_bytes(Some("0x"@ + address)) == hl_signing::vault_bytes(Some(address)),
        hl_signing::vault_valid(Some("0x"@ + address)) == hl_signing::vault_valid(Some(address)),
        hl_signing::vault_valid(Some(address)) ==> (hl_signing::vault_bytes(Some(address)) matches Some(b)
            && b.len() == 20),
        hl_signing::vault_valid(None),
        hl_signing::vault_bytes(None) is None,
{
    reveal_strlit("0x");
    let s = "0x"@ + address;
    assert(s.subrange(0, 2) =~= "0x"@);
    assert(s.subrange(2, s.len() as int) =~= address);
}

/// The bytes of an address that is written in hexadecimal digits are those that were written.
pub proof fn law_vault_is_read_back(b: Seq<u8>)
    requires
        b.len() == 20,
        !text::begins_with(hl_signing::hex_form(b), "0x"@),
    ensures
        hl_signing::vault_valid(Some("0x"@ + hl_signing::hex_form(b))),
        hl_signing::vault_bytes(Some("0x"@ + hl_signing::hex_form(b))) == Some(b),
{
    law_hex_reads_back(b);
    law_address_is_the_same_with_its_prefix(hl_signing::hex_form(b));
}

/// A signature is sent as the wallet made it: both of its numbers read back, and its last byte is
/// the one of the wallet. It is one of the hash of what is asked, and there is none for a vault
/// that is no address.
pub proof fn law_signature_is_that_of_the_wallet(
    signer: HyperliquidSigner,
    r: Result<HyperliquidSignature, SigningError>,
    action: Seq<u8>,
    nonce: u64,
    vault: Option<Seq<char>>,
    expires_after: Option<u64>,
)
    requires
        signer.is_signed(r, action, nonce, vault, expires_after),
    ensures
        !hl_signing::vault_valid(vault) ==> r is Err,
        r matches Ok(s) ==> (hl_signing::wallet_signature(
            signer.key(),
            signer.digest_of(action, nonce, vault, expires_after),
        ) matches Ok(t) && {
            &&& hl_signing::hex_bytes(hl_signing::unprefixed(s.r@)) == t.0
            &&& hl_signing::hex_bytes(hl_signing::unprefixed(s.s@)) == t.1
            &&& s.v == t.2
        }),
{
    reveal_strlit("0x");
    if let Ok(s) = r {
        let t = hl_signing::wallet_signature(
            signer.key(),
            signer.digest_of(action, nonce, vault, expires_after),
        )->Ok_0;
        law_hex_reads_back(t.0);
        law_hex_reads_back(t.1);
        assert(s.r@.subrange(0, 2) =~= "0x"@);
        assert(s.s@.subrange(0, 2) =~= "0x"@);
        assert(s.r@.subrange(2, s.r@.len() as int) =~= hl_signing::hex_form(t.0));
        assert(s.s@.subrange(2, s.s@.len() as int) =~= hl_signing::hex_form(t.1));
    }
}

proof fn lemma_word_value(n: nat)
    requires
        n < 65536,
    ensures
        hl_signing::big_endian(n, 32).len() == 32,
        order_laws::bytes_value(hl_signing::big_endian(n, 32)) == n,
{
    let p = vstd::arithmetic::power::pow(256, 32);
    vstd::arithmetic::power::lemma_pow_adds(256, 2, 30);
    vstd::arithmetic::power::lemma_pow_positive(256, 30);
    assert(vstd::arithmetic::power::pow(256, 2) == 65536) by {
        reveal_with_fuel(vstd::arithmetic::power::pow, 3);
    }
    let q = vstd::arithmetic::power::pow(256, 30);
    assert(65536 * q >= 65536) by (nonlinear_arith)
        requires
            q >= 1,
    ;
    order_laws::lemma_bytes_read_back(n, 32, p as nat);
    hl_signing::lemma_big_endian_len(n, 32);
}

proof fn lemma_same_value(a: Seq<u8>, b: Seq<u8>)
    requires
        a.len() == b.len(),
        order_laws::bytes_value(a) == order_laws::bytes_value(b),
    ensures
        a == b,
    decreases a.len(),
{
    if a.len() > 0 {
        lemma_same_value(a.drop_last(), b.drop_last());
        assert(a =~= a.drop_last().push(a.last()));
        assert(b =~= b.drop_last().push(b.last()));
    } else {
        assert(a =~= b);
    }
}

/// Actions are signed in the domain named Exchange, in its version one, on the chain with the
/// number 1337 and for no contract: the words of these two numbers stand at the end of what is
/// hashed.
pub proof fn law_domain_is_that_of_the_exchange(chain: Seq<u8>, contract: Seq<u8>)
    requires
        chain.len() == 32,
        contract.len() == 32,
        order_laws::bytes_value(chain) == 1337,
        order_laws::bytes_value(contract) == 0,
    ensures
        hl_signing::domain_separator() == hl_signing::keccak_digest(
            hl_signing::keccak_digest(
                vstd::utf8::encode_utf8(
                    "EIP712Domain(string name,string version,uint256 chainId,address verifyingContract)"@,
                ),
            ) + hl_signing::keccak_digest(vstd::utf8::encode_utf8("Exchange"@)) + hl_signing::keccak_digest(
                vstd::utf8::encode_utf8("1"@),
            ) + chain + contract,
        ),
{
    lemma_word_value(1337);
    lemma_word_value(0);
    lemma_same_value(chain, hl_signing::big_endian(1337, 32));
    lemma_same_value(contract, hl_signing::big_endian(0, 32));
}

/// What is signed are two fixed bytes, the domain, and the hash of the agent, which is that of the
/// network and of the action.
pub proof fn law_signed_bytes_hold_the_agent(source: Seq<char>, id: Seq<u8>, d: Seq<u8>)
    requires
        d.len() == 2 + hl_signing::domain_separator().len() + hl_signing::keccak_digest(
            hl_signing::keccak_digest(
                vstd::utf8::encode_utf8("Agent(string source,bytes32 connectionId)"@),
            ) + hl_signing::keccak_digest(vstd::utf8::encode_utf8(source)) + id,
        ).len(),
        d[0] == 0x19,
        d[1] == 0x01,
        d.subrange(2, (2 + hl_signing::domain_separator().len()) as int) == hl_signing::domain_separator(),
        d.subrange((2 + hl_signing::domain_separator().len()) as int, d.len() as int) == hl_signing::keccak_digest(
            hl_signing::keccak_digest(
                vstd::utf8::encode_utf8("Agent(string source,bytes32 connectionId)"@),
            ) + hl_signing::keccak_digest(vstd::utf8::encode_utf8(source)) + id,
        ),
    ensures
        hl_signing::agent_digest(source, id) == hl_signing::keccak_digest(d),
{
    let m = 2 + hl_signing::domain_separator().len();
    assert(d =~= seq![0x19u8, 0x01u8] + d.subrange(2, m as int) + d.subrange(m as int, d.len() as int));
}

/// The number in an order id of the exchange is the one that it was written for.
pub proof fn law_order_number_reads_back(id: ExchangeOrderId, n: u64)
    requires
        id@ == text::digits(n as nat),
    ensures
        HyperliquidClient::oid_number(Some(&id)) == Some(n as nat),
        HyperliquidClient::oid_number(None) is None,
{
    text::law_digits_read_back(n as nat, u64::MAX as nat);
}

/// The fills of a perpetual are booked to the instrument whose price is found under their coin:
/// the two names lead to each other.
pub proof fn law_coin_leads_to_its_perpetual(client: HyperliquidClient, coin: Seq<char>)
    requires
        !coin.contains('-'),
        !coin.contains(':'),
        coin.len() > 0,
        coin[0] != '#',
        coin[0] != '@',
    ensures
        client.price_key(coin + "-PERP"@) == Some(coin),
        hl_client::fill_instrument(client.config.spot_coin, coin) == coin + "-PERP"@,
{
    reveal_strlit("-PERP");
    reveal_strlit("-SPOT");
    reveal_strlit("-OUTCOME");
    reveal_strlit("-");
    reveal_strlit("PERP");
    reveal_strlit("#");
    reveal_strlit("@");
    reveal_strlit(":");
    let s = coin + "-PERP"@;
    assert(s.last() == 'P');
    assert("-SPOT"@.last() == 'T' && "-OUTCOME"@.last() == 'E');
    if text::finishes_with(s, "-OUTCOME"@) {
        assert(s.subrange(s.len() - 8, s.len() as int).last() == s.last());
    }
    if text::finishes_with(s, "-SPOT"@) {
        assert(s.subrange(s.len() - 5, s.len() as int).last() == s.last());
    }
    if text::has_text(s, ":"@) {
        let at = choose|at: int| text::occurs_at(s, ":"@, at);
        assert(s.subrange(at, at + 1)[0] == s[at]);
        assert(s[at] == ':');
        if at < coin.len() {
            assert(coin[at] == ':');
        }
    }
    law_part_before_the_first(s, '-');
    let p = text::before_first(s, '-');
    assert(s[coin.len() as int] == '-');
    if p.len() > coin.len() {
        assert(p[coin.len() as int] == s[coin.len() as int]);
    }
    if p.len() < coin.len() {
        assert(coin[p.len() as int] == '-');
    }
    assert(s.subrange(0, coin.len() as int) =~= coin);
    if text::begins_with(coin, "#"@) {
        assert(coin.subrange(0, 1)[0] == '#');
    }
    if text::begins_with(coin, "@"@) {
        assert(coin.subrange(0, 1)[0] == '@');
    }
    assert(coin + "-"@ + "PERP"@ =~= coin + "-PERP"@);
}

/// The fills of an outcome are booked to the instrument whose price is found under their coin.
pub proof fn law_coin_leads_to_its_outcome(client: HyperliquidClient, coin: Seq<char>)
    requires
        coin.len() > 0,
        coin[0] == '#',
    ensures
        client.price_key(coin + "-OUTCOME"@) == Some(coin),
        hl_client::fill_instrument(client.config.spot_coin, coin) == coin + "-OUTCOME"@,
{
    reveal_strlit("-OUTCOME");
    reveal_strlit("OUTCOME");
    reveal_strlit("-");
    reveal_strlit("#");
    let s = coin + "-OUTCOME"@;
    assert(s.subrange(s.len() - 8, s.len() as int) =~= "-OUTCOME"@);
    law_part_before_the_last(s, '-');
    let p = text::before_last(s, '-');
    assert(s[coin.len() as int] == '-');
    assert(s.contains('-'));
    assert(p.len() == coin.len()) by {
        if p.len() > coin.len() {
            let i = p.len() as int;
            assert(s[i] == "-OUTCOME"@[i - coin.len()]);
        }
        if p.len() < coin.len() {
            assert(s[coin.len() as int] != '-');
        }
    }
    assert(s.subrange(0, coin.len() as int) =~= coin);
    assert(coin.subrange(0, 1) =~= "#"@);
    assert(coin + "-"@ + "OUTCOME"@ =~= coin + "-OUTCOME"@);
}

/// The price of an asset is found under its number on the exchange, which is its index less ten
/// thousand.
pub proof fn law_assets_are_priced_by_number(client: HyperliquidClient, base: Seq<char>, index: u32)
    requires
        client.config.spot_market_index == Some(index),
    ensures
        match client.price_key(base + "-SPOT"@) {
            Some(k) => index >= 10000 && k.len() > 0 && k[0] == '@' && text::digits_value(
                k.subrange(1, k.len() as int),
            ) == Some((index - 10000) as nat),
            None => index < 10000,
        },
{
    reveal_strlit("-SPOT");
    reveal_strlit("-OUTCOME");
    reveal_strlit("@");
    let s = base + "-SPOT"@;
    assert(s.last() == 'T' && "-OUTCOME"@.last() == 'E');
    if text::finishes_with(s, "-OUTCOME"@) {
        assert(s.subrange(s.len() - 8, s.len() as int).last() == s.last());
    }
    assert(s.subrange(s.len() - 5, s.len() as int) =~= "-SPOT"@);
    if index >= 10000 {
        text::lemma_digits_read_back((index - 10000) as nat);
        let k = "@"@ + text::digits((index - 10000) as nat);
        assert(k.subrange(1, k.len() as int) =~= text::digits((index - 10000) as nat));
    }
}

/// The price under a name is the last number that was told for it.
pub proof fn law_last_price_counts(s: Seq<(String, String)>, n: nat, key: Seq<char>)
    requires
        n <= s.len(),
    ensures
        ({
            let m = hl_client::mids_of(s, n);
            if m.contains_key(key) {
                exists|i: int|
                    0 <= i < n && (#[trigger] s[i]).0@ == key && decimal::opt_of(
                        decimal::decimal_parsed(s[i].1@),
                    ) == Some(m[key]) && forall|j: int|
                        i < j < n && (#[trigger] s[j]).0@ == key ==> decimal::decimal_parsed(s[j].1@) is None
            } else {
                forall|i: int|
                    0 <= i < n && (#[trigger] s[i]).0@ == key ==> decimal::decimal_parsed(s[i].1@) is None
            }
        }),
    decreases n,
{
    if n > 0 {
        law_last_price_counts(s, (n - 1) as nat, key);
        let before = hl_client::mids_of(s, (n - 1) as nat);
        let m = hl_client::mids_of(s, n);
        if s[n - 1].0@ == key && decimal::decimal_parsed(s[n - 1].1@) is Some {
            assert(s[n - 1].0@ == key);
        } else if m.contains_key(key) {
            assert(before.contains_key(key) && before[key] == m[key]);
            let i = choose|i: int|
                0 <= i < n - 1 && (#[trigger] s[i]).0@ == key && decimal::opt_of(
                    decimal::decimal_parsed(s[i].1@),
                ) == Some(before[key]) && forall|j: int|
                    i < j < n - 1 && (#[trigger] s[j]).0@ == key ==> decimal::decimal_parsed(s[j].1@) is None;
            assert(s[i].0@ == key);
        }
    }
}

/// A quote without a book shows the one price that is known on both sides, and offers nothing.
pub proof fn law_quote_shows_the_known_price(
    client: HyperliquidClient,
    mids: Map<Seq<char>, Decimal>,
    instrument: InstrumentId,
    now: i64,
    key: Seq<char>,
)
    requires
        client.price_key(instrument@) == Some(key),
        mids.contains_key(key),
    ensures
        client.priced(mids, instrument),
        ({
            let q = client.quote_at(mids, instrument, now);
            &&& q.bid.0 == mids[key]
            &&& q.ask.0 == mids[key]
            &&& decimal::units(q.bid_size.0) == 0
            &&& decimal::units(q.ask_size.0) == 0
            &&& q.ts == now
            &&& q.instrument == instrument
        }),
{
    broadcast use crate::decimal::lemma_of_view;

    assert(decimal::zero()@ == (decimal::DecimalView { mantissa: 0, scale: 0 }));
    assert(0 * decimal::pow10(28) == 0);
}

/// The account that is read is the vault where there is one, else the main account, else that of
/// the key; the question for it names that account, and asks for what is held as assets just
/// where assets are traded.
pub proof fn law_question_names_the_account(client: HyperliquidClient)
    ensures
        client.config.vault_address matches Some(v) ==> client.user() == v@,
        client.config.vault_address is None ==> (client.config.main_address matches Some(a)
            ==> client.user() == a@),
        client.config.vault_address is None && client.config.main_address is None ==> client.user()
            == client.signer.address(),
        client.user_state_question().member("user"@) == Some(JsonView::Text(client.user())),
        client.user_state_question().member("type"@) == Some(JsonView::Text("spotClearinghouseState"@))
            <==> client.config.is_spot || client.config.is_outcome,
        client.user_state_question().member("dex"@) matches Some(d) ==> (client.config.hip3 matches Some(h)
            && d == JsonView::Text(h.dex_name@) && text::upper_text(h.quote_currency@) != "USDC"@),
        !client.config.is_spot && !client.config.is_outcome ==> (client.config.hip3 matches Some(h) ==> (
        text::upper_text(h.quote_currency@) != "USDC"@ ==> client.user_state_question().member("dex"@)
            == Some(JsonView::Text(h.dex_name@)))),
{
    reveal_strlit("type");
    reveal_strlit("user");
    reveal_strlit("dex");
    reveal_strlit("spotClearinghouseState");
    reveal_strlit("clearinghouseState");
    assert("type"@[0] == 't' && "user"@[0] == 'u' && "dex"@.len() == 3);
    assert("type"@.len() == 4 && "user"@.len() == 4);
    assert("spotClearinghouseState"@.len() == 22 && "clearinghouseState"@.len() == 18);
    let s = client.user_state_question()->Record_0;
    json::law_first_member_is_found(s, "type"@, 0);
    json::law_first_member_is_found(s, "user"@, 1);
    if s.len() == 3 {
        json::law_first_member_is_found(s, "dex"@, 2);
    } else {
        lemma_no_member(s, "dex"@);
    }
}

proof fn lemma_no_member(s: Seq<(Seq<char>, JsonView)>, name: Seq<char>)
    requires
        s.len() == 2,
        s[0].0 != name,
        s[1].0 != name,
    ensures
        JsonView::Record(s).member(name) is None,
{
    reveal_with_fuel(json::member_index, 4);
}

/// The account in a reply is read from its summary, and its positions are those that are listed.
pub proof fn law_account_is_read(v: JsonView, state: JsonView, summary: JsonView, list: Seq<JsonView>)
    requires
        v.member("clearinghouseState"@) == Some(state),
        state.member("marginSummary"@) == Some(summary),
        state.member("assetPositions"@) == Some(JsonView::List(list)),
    ensures
        ({
            let a = hl_client::account_of(v);
            &&& summary.member("accountValue"@) matches Some(JsonView::Text(t)) ==> a.0 == decimal::opt_of(
                decimal::decimal_parsed(t),
            )
            &&& summary.member("unrealizedPnl"@) matches Some(JsonView::Text(t)) ==> a.1
                == decimal::opt_of(decimal::decimal_parsed(t))
            &&& a.2 == list
        }),
{
}

/// Of the items of an account just those are positions that name a coin and a size, in their
/// order.
pub proof fn law_positions_are_those_with_a_size(s: Seq<JsonView>, n: nat)
    requires
        n <= s.len(),
    ensures
        forall|i: int|
            0 <= i < n && hl_client::holds_position(#[trigger] s[i]) ==> hl_client::positions_among(
                s,
                n,
            ).contains(s[i]),
        forall|j: int|
            0 <= j < hl_client::positions_among(s, n).len() ==> hl_client::holds_position(
                #[trigger] hl_client::positions_among(s, n)[j],
            ) && s.contains(hl_client::positions_among(s, n)[j]),
        hl_client::positions_among(s, n).len() <= n,
    decreases n,
{
    if n > 0 {
        law_positions_are_those_with_a_size(s, (n - 1) as nat);
        let a = hl_client::positions_among(s, (n - 1) as nat);
        let b = hl_client::positions_among(s, n);
        if hl_client::holds_position(s[n - 1]) {
            assert(b[a.len() as int] == s[n - 1]);
        }
        assert forall|i: int| 0 <= i < n && hl_client::holds_position(#[trigger] s[i]) implies b.contains(
            s[i],
        ) by {
            if i < n - 1 {
                let j = choose|j: int| 0 <= j < a.len() && a[j] == s[i];
                assert(b[j] == s[i]);
            }
        }
        assert forall|j: int| 0 <= j < b.len() implies hl_client::holds_position(#[trigger] b[j])
            && s.contains(b[j]) by {
            if j < a.len() {
                assert(b[j] == a[j]);
            }
        }
    }
}

/// What is told of a reply that cannot be read begins with the fault, and ends with how the reply
/// begins, at most two thousand characters of it.
pub proof fn law_unreadable_reply_is_told(fault: Seq<char>, raw: Seq<char>)
    ensures
        ({
            let t = hl_client::unreadable(fault, raw);
            let n = if raw.len() < 2000 {
                raw.len() as int
            } else {
                2000
            };
            &&& t.subrange(0, fault.len() as int) == fault
            &&& t.subrange(t.len() - n, t.len() as int) == raw.subrange(0, n)
        }),
{
    let t = hl_client::unreadable(fault, raw);
    let n = if raw.len() < 2000 {
        raw.len() as int
    } else {
        2000
    };
    assert(t.subrange(0, fault.len() as int) =~= fault);
    assert(t.subrange(t.len() - n, t.len() as int) =~= raw.subrange(0, n));
}

} // verus!
