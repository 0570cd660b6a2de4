use vstd::prelude::*;
use vstd::string::*;
use vstd::utf8::encode_utf8;

use super::helper::{md5_digest, md5_of, random_block};
use super::text::{
    byte_upper_hex_padded, decimal, decimal_string, digit_char, digit_str, hex_of, lower_hex,
    push_byte_upper_hex_padded, push_decimal, push_lower_hex, hex_string,
};

verus! {

/// The identity of a client application as the server knows it.
#[derive(Debug, Clone, Copy)]
pub struct APK {
    pub id: &'static str,
    pub name: &'static str,
    pub version: &'static str,
    pub ver: &'static str,
    pub sign: [u8; 16],
    pub buildtime: u32,
    pub appid: u32,
    pub subid: u32,
    pub bitmap: u32,
    pub sigmap: u32,
    pub sdkver: &'static str,
    pub display: &'static str,
}

/// The platforms a client can log in as.
#[derive(Debug, Clone, Copy, PartialEq, Eq, Structural)]
pub enum Platform {
    Android,
    AndroidPad,
    Watch,
    IMac,
    IPad,
}

/// The signature of the phone and watch applications.
pub open spec fn phone_sign() -> Seq<u8> {
    seq![0xa6u8, 0xb7, 0x45, 0xbf, 0x24, 0xa2, 0xc2, 0x77, 0x52, 0x77, 0x16, 0xf6, 0xf3, 0x6e, 0xb6, 0x8d]
}

/// The signature of the tablet and desktop applications.
pub open spec fn tablet_sign() -> Seq<u8> {
    seq![0xaau8, 0x39, 0x78, 0xf4, 0x1f, 0xd9, 0x6f, 0xf9, 0x91, 0x4a, 0x66, 0x9e, 0x18, 0x64, 0x74, 0xc7]
}

/// The text fields of an application identity.
pub open spec fn apk_texts(a: APK, id: Seq<char>, name: Seq<char>, version: Seq<char>, ver: Seq<char>, sdkver: Seq<char>, display: Seq<char>) -> bool {
    &&& a.id@ == id
    &&& a.name@ == name
    &&& a.version@ == version
    &&& a.ver@ == ver
    &&& a.sdkver@ == sdkver
    &&& a.display@ == display
}

/// The number fields of an application identity.
pub open spec fn apk_numbers(a: APK, sign: Seq<u8>, buildtime: u32, appid: u32, subid: u32, bitmap: u32, sigmap: u32) -> bool {
    &&& a.sign@ == sign
    &&& a.buildtime == buildtime
    &&& a.appid == appid
    &&& a.subid == subid
    &&& a.bitmap == bitmap
    &&& a.sigmap == sigmap
}

pub open spec fn is_mobile_apk(a: APK) -> bool {
    &&& apk_texts(a, "com.tencent.mobileqq"@, "A8.8.80.7400"@, "8.8.80.7400"@, "8.8.80"@, "6.0.0.2494"@, "Android"@)
    &&& apk_numbers(a, phone_sign(), 1640921786, 16, 537113159, 184024956, 34869472)
}

pub open spec fn is_watch_apk(a: APK) -> bool {
    &&& apk_texts(a, "com.tencent.qqlite"@, "A2.0.5"@, "2.0.5"@, "2.0.5"@, "6.0.0.236"@, "Watch"@)
    &&& apk_numbers(a, phone_sign(), 1559564731, 16, 537064446, 16252796, 34869472)
}

pub open spec fn is_android_pad_apk(a: APK) -> bool {
    &&& apk_texts(a, "com.tencent.minihd.qq"@, "A5.9.3.3468"@, "5.9.3.3468"@, "5.9.3"@, "6.0.0.2487"@, "aPad"@)
    &&& apk_numbers(a, tablet_sign(), 1637427966, 16, 537067382, 150470524, 1970400)
}

pub open spec fn is_i_mac_apk(a: APK) -> bool {
    &&& apk_texts(a, "com.tencent.minihd.qq"@, "A5.9.3.3468"@, "5.9.3.3468"@, "5.9.3"@, "6.0.0.2487"@, "iMac"@)
    &&& apk_numbers(a, tablet_sign(), 1637427966, 16, 537128930, 150470524, 1970400)
}

pub open spec fn is_i_pad_apk(a: APK) -> bool {
    &&& apk_texts(a, "com.tencent.minihd.qq"@, "A5.9.3.3468"@, "5.9.3.3468"@, "5.9.3"@, "6.0.0.2487"@, "iPad"@)
    &&& apk_numbers(a, tablet_sign(), 1637427966, 16, 537118796, 150470524, 1970400)
}

/// The application identity that each platform logs in with.
pub open spec fn platform_apk(p: Platform, a: APK) -> bool {
    match p {
        Platform::Android => is_mobile_apk(a),
        Platform::AndroidPad => is_android_pad_apk(a),
        Platform::Watch => is_watch_apk(a),
        Platform::IMac => is_i_mac_apk(a),
        Platform::IPad => is_i_pad_apk(a),
    }
}

/// Every platform's identity is named `A` and its version, its version starts with its short
/// version, its application id is 16, and no two platforms share a sub-id.
pub proof fn lemma_platform_identities(p: Platform, a: APK, q: Platform, b: APK)
    requires
        platform_apk(p, a),
        platform_apk(q, b),
    ensures
        a.name@ == "A"@ + a.version@,
        a.ver@.len() <= a.version@.len() && a.version@.subrange(0, a.ver@.len() as int) == a.ver@,
        a.appid == 16,
        p != q ==> a.subid != b.subid,
{
    reveal_strlit("A");
    reveal_strlit("A8.8.80.7400");
    reveal_strlit("8.8.80.7400");
    reveal_strlit("8.8.80");
    reveal_strlit("A2.0.5");
    reveal_strlit("2.0.5");
    reveal_strlit("A5.9.3.3468");
    reveal_strlit("5.9.3.3468");
    reveal_strlit("5.9.3");
    assert(a.name@ =~= "A"@ + a.version@);
    assert(a.version@.subrange(0, a.ver@.len() as int) =~= a.ver@);
}

fn phone_sign_bytes() -> (s: [u8; 16])
    ensures
        s@ == phone_sign(),
{
    let s = [0xa6u8, 0xb7, 0x45, 0xbf, 0x24, 0xa2, 0xc2, 0x77, 0x52, 0x77, 0x16, 0xf6, 0xf3, 0x6e, 0xb6, 0x8d];
    assert(s@ =~= phone_sign());
    s
}

fn tablet_sign_bytes() -> (s: [u8; 16])
    ensures
        s@ == tablet_sign(),
{
    let s = [0xaau8, 0x39, 0x78, 0xf4, 0x1f, 0xd9, 0x6f, 0xf9, 0x91, 0x4a, 0x66, 0x9e, 0x18, 0x64, 0x74, 0xc7];
    assert(s@ =~= tablet_sign());
    s
}

impl Platform {
    /// The application identity of this platform.
    pub fn metadata(&self) -> (apk: APK)
        ensures
            platform_apk(*self, apk),
    {
        match self {
            Platform::Android => Platform::mobile(),
            Platform::AndroidPad => Platform::android_pad(),
            Platform::Watch => Platform::watch(),
            Platform::IMac => Platform::i_mac(),
            Platform::IPad => Platform::i_pad(),
        }
    }

    pub fn mobile() -> (apk: APK)
        ensures
            is_mobile_apk(apk),
    {
        APK {
            id: "com.tencent.mobileqq",
            name: "A8.8.80.7400",
            version: "8.8.80.7400",
            ver: "8.8.80",
            sign: phone_sign_bytes(),
            buildtime: 1640921786,
            appid: 16,
            subid: 537113159,
            bitmap: 184024956,
            sigmap: 34869472,
            sdkver: "6.0.0.2494",
            display: "Android",
        }
    }

    pub fn watch() -> (apk: APK)
        ensures
            is_watch_apk(apk),
    {
        APK {
            id: "com.tencent.qqlite",
            name: "A2.0.5",
            version: "2.0.5",
            ver: "2.0.5",
            sign: phone_sign_bytes(),
            buildtime: 1559564731,
            appid: 16,
            subid: 537064446,
            bitmap: 16252796,
            sigmap: 34869472,
            sdkver: "6.0.0.236",
            display: "Watch",
        }
    }

    pub fn android_pad() -> (apk: APK)
        ensures
            is_android_pad_apk(apk),
    {
        APK {
            id: "com.tencent.minihd.qq",
            name: "A5.9.3.3468",
            version: "5.9.3.3468",
            ver: "5.9.3",
            sign: tablet_sign_bytes(),
            buildtime: 1637427966,
            appid: 16,
            subid: 537067382,
            bitmap: 150470524,
            sigmap: 1970400,
            sdkver: "6.0.0.2487",
            display: "aPad",
        }
    }

    pub fn i_mac() -> (apk: APK)
        ensures
            is_i_mac_apk(apk),
    {
        APK {
            id: "com.tencent.minihd.qq",
            name: "A5.9.3.3468",
            version: "5.9.3.3468",
            ver: "5.9.3",
            sign: tablet_sign_bytes(),
            buildtime: 1637427966,
            appid: 16,
            subid: 537128930,
            bitmap: 150470524,
            sigmap: 1970400,
            sdkver: "6.0.0.2487",
            display: "iMac",
        }
    }

    pub fn i_pad() -> (apk: APK)
        ensures
            is_i_pad_apk(apk),
    {
        APK {
            id: "com.tencent.minihd.qq",
            name: "A5.9.3.3468",
            version: "5.9.3.3468",
            ver: "5.9.3",
            sign: tablet_sign_bytes(),
            buildtime: 1637427966,
            appid: 16,
            subid: 537118796,
            bitmap: 150470524,
            sigmap: 1970400,
            sdkver: "6.0.0.2487",
            display: "iPad",
        }
    }
}


/// A device in short: what a login needs besides the platform, all derived from the account
/// number by `generate`.
#[derive(Debug, Clone)]
pub struct ShortDevice {
    pub product: &'static str,
    pub device: &'static str,
    pub board: &'static str,
    pub brand: &'static str,
    pub model: &'static str,
    pub wifi_ssid: String,
    pub bootloader: &'static str,
    pub android_id: String,
    pub boot_id: String,
    pub proc_version: String,
    pub mac_address: String,
    pub ip_address: String,
    pub imei: String,
    pub incremental: u32,
}

/// The leading decimal digit of a number.
pub open spec fn leading_digit(n: nat) -> nat
    decreases n,
{
    if n < 10 {
        n
    } else {
        leading_digit(n / 10)
    }
}

/// Halves a number until it has at most seven decimal digits.
pub open spec fn halve_below_ten_million(b: nat) -> nat
    decreases b,
{
    if b > 9999999 {
        halve_below_ten_million(b / 2)
    } else {
        b
    }
}

/// The four digits of an IMEI that follow its prefix, from the high half of the account number.
pub open spec fn imei_head(uin: u32) -> Seq<char> {
    let a = uin as nat / 65536;
    if a > 9999 {
        decimal(a / 10)
    } else if a < 1000 {
        decimal(uin as nat).subrange(0, 4)
    } else {
        decimal(a)
    }
}

/// The seven digits that close an IMEI before its check digit, from the low 24 bits of the
/// account number.
pub open spec fn imei_tail(uin: u32) -> Seq<char> {
    let b = halve_below_ten_million(uin as nat % 16777216);
    if b < 1000000 {
        decimal(uin as nat).subrange(0, 4) + decimal(uin as nat).subrange(0, 3)
    } else {
        decimal(b)
    }
}

/// An IMEI without its check digit.
pub open spec fn imei_body(uin: u32) -> Seq<char> {
    (if uin % 2 == 0 { "35"@ } else { "86"@ }) + imei_head(uin) + "0"@ + imei_tail(uin)
}

/// The value of a decimal digit character.
pub open spec fn digit_value(c: char) -> int {
    c as int - 48
}

/// What the digit at position `i` adds to the check sum: even positions count once, odd ones
/// twice with the digits of the product added.
pub open spec fn check_weight(i: int, c: char) -> int {
    if i % 2 == 0 {
        digit_value(c)
    } else {
        (2 * digit_value(c)) % 10 + (2 * digit_value(c)) / 10
    }
}

/// The check sum of a string of digits.
pub open spec fn check_sum(s: Seq<char>) -> int
    decreases s.len(),
{
    if s.len() == 0 {
        0
    } else {
        check_sum(s.drop_last()) + check_weight(s.len() - 1, s.last())
    }
}

/// The IMEI generated for an account: its body and the check digit.
pub open spec fn generated_imei(uin: u32) -> Seq<char> {
    imei_body(uin).push(digit_char(((100 - check_sum(imei_body(uin))) % 10) as nat))
}

/// The accounts for which an IMEI can be generated: four digits at least (the generator cuts
/// the account's first four digits), and a check sum of at most 100.
pub open spec fn imei_ok(uin: u32) -> bool {
    uin >= 1000 && check_sum(imei_body(uin)) <= 100
}

/// Whether every character is a decimal digit.
pub open spec fn all_digits(s: Seq<char>) -> bool {
    forall|i: int| 0 <= i < s.len() ==> '0' <= #[trigger] s[i] <= '9'
}

pub proof fn lemma_decimal_digits(n: nat)
    ensures
        all_digits(decimal(n)),
        decimal(n).len() >= 1,
        n >= 10 ==> decimal(n).len() == decimal(n / 10).len() + 1,
        decimal(n)[0] == digit_char(leading_digit(n)),
    decreases n,
{
    if n >= 10 {
        lemma_decimal_digits(n / 10);
        let d = decimal(n / 10);
        assert(decimal(n) == d.push(digit_char(n % 10)));
        assert forall|i: int| 0 <= i < decimal(n).len() implies '0' <= #[trigger] decimal(n)[i] <= '9' by {
            if i < d.len() {
                assert(decimal(n)[i] == d[i]);
            }
        }
    }
}

proof fn lemma_decimal_len_four(n: nat)
    requires
        n >= 1000,
    ensures
        decimal(n).len() >= 4,
{
    lemma_decimal_digits(n);
    lemma_decimal_digits(n / 10);
    lemma_decimal_digits(n / 100);
    assert(n / 10 / 10 == n / 100);
    assert(n / 100 / 10 == n / 1000);
    lemma_decimal_digits(n / 1000);
}

proof fn lemma_imei_body_digits(uin: u32)
    requires
        uin >= 1000,
    ensures
        all_digits(imei_body(uin)),
        imei_body(uin).len() <= 20,
{
    reveal_strlit("35");
    reveal_strlit("86");
    reveal_strlit("0");
    let dec = decimal(uin as nat);
    lemma_decimal_digits(uin as nat);
    lemma_decimal_len_four(uin as nat);
    let a = uin as nat / 65536;
    lemma_decimal_digits(a);
    lemma_decimal_digits(a / 10);
    let b = halve_below_ten_million(uin as nat % 16777216);
    lemma_halve(uin as nat % 16777216);
    lemma_decimal_digits(b);
    lemma_decimal_short(a);
    lemma_decimal_short(a / 10);
    lemma_decimal_short(b);
    let head = imei_head(uin);
    let tail = imei_tail(uin);
    assert(all_digits(head));
    assert(all_digits(tail)) by {
        if b < 1000000 {
            let t = dec.subrange(0, 4) + dec.subrange(0, 3);
            assert forall|i: int| 0 <= i < t.len() implies '0' <= #[trigger] t[i] <= '9' by {
                if i < 4 {
                    assert(t[i] == dec[i]);
                } else {
                    assert(t[i] == dec[i - 4]);
                }
            }
        }
    }
    let p: Seq<char> = if uin % 2 == 0 { "35"@ } else { "86"@ };
    let body = p + head + "0"@ + tail;
    assert(body == imei_body(uin));
    assert forall|i: int| 0 <= i < body.len() implies '0' <= #[trigger] body[i] <= '9' by {
        if i < 2 {
            assert(body[i] == p[i]);
        } else if i < 2 + head.len() {
            assert(body[i] == head[i - 2]);
        } else if i == 2 + head.len() {
        } else {
            assert(body[i] == tail[i - 3 - head.len()]);
        }
    }
}

proof fn lemma_halve(b: nat)
    ensures
        halve_below_ten_million(b) <= b,
        halve_below_ten_million(b) <= 9999999,
    decreases b,
{
    if b > 9999999 {
        lemma_halve(b / 2);
    }
}

proof fn lemma_decimal_short(n: nat)
    requires
        n <= 9999999,
    ensures
        decimal(n).len() <= 7,
{
    lemma_decimal_digits(n);
    if n >= 10 {
        lemma_decimal_digits(n / 10);
        if n / 10 >= 10 {
            lemma_decimal_digits(n / 100);
            assert(n / 10 / 10 == n / 100);
            if n / 100 >= 10 {
                lemma_decimal_digits(n / 1000);
                assert(n / 100 / 10 == n / 1000);
                if n / 1000 >= 10 {
                    lemma_decimal_digits(n / 10000);
                    assert(n / 1000 / 10 == n / 10000);
                    if n / 10000 >= 10 {
                        lemma_decimal_digits(n / 100000);
                        assert(n / 10000 / 10 == n / 100000);
                        if n / 100000 >= 10 {
                            lemma_decimal_digits(n / 1000000);
                            assert(n / 100000 / 10 == n / 1000000);
                        }
                    }
                }
            }
        }
    }
}

/// The first `count` characters of a decimal number's text.
fn decimal_prefix(s: &String, count: usize) -> (p: String)
    requires
        count <= s@.len(),
    ensures
        p@ == s@.subrange(0, count as int),
{
    String::from_str(s.as_str().substring_char(0, count))
}

/// The IMEI of an account without its check digit (see `imei_body`).
fn imei_body_string(uin: u32) -> (imei: String)
    requires
        uin >= 1000,
    ensures
        imei@ == imei_body(uin),
        all_digits(imei@),
        imei@.len() <= 20,
{
    let uin_str = decimal_string(uin as u64);
    proof {
        lemma_decimal_len_four(uin as nat);
        reveal_strlit("35");
        reveal_strlit("86");
        reveal_strlit("0");
    }
    let a: u32 = uin / 65536;
    let mut b: u32 = uin % 16777216;
    let a_str = if a > 9999 {
        decimal_string((a / 10) as u64)
    } else if a < 1000 {
        decimal_prefix(&uin_str, 4)
    } else {
        decimal_string(a as u64)
    };
    assert(a_str@ == imei_head(uin));
    while b > 9999999
        invariant
            halve_below_ten_million(b as nat) == halve_below_ten_million(uin as nat % 16777216),
        decreases b,
    {
        b = b / 2;
    }
    let b_str = if b < 1000000 {
        let mut t = decimal_prefix(&uin_str, 4);
        let u = decimal_prefix(&uin_str, 3);
        t.append(u.as_str());
        t
    } else {
        decimal_string(b as u64)
    };
    assert(b_str@ == imei_tail(uin));
    let mut imei = if uin % 2 == 0 {
        String::from_str("35")
    } else {
        String::from_str("86")
    };
    imei.append(a_str.as_str());
    imei.append("0");
    imei.append(b_str.as_str());
    assert(imei@ =~= imei_body(uin));
    proof {
        lemma_imei_body_digits(uin);
    }
    imei
}

/// The check sum of the digits of an IMEI (see `check_sum`).
fn check_sum_of(imei: &String) -> (sum: u32)
    requires
        all_digits(imei@),
        imei@.len() <= 20,
    ensures
        sum == check_sum(imei@),
        sum <= 180,
{
    let n = imei.as_str().unicode_len();
    let mut sum: u32 = 0;
    let mut i: usize = 0;
    while i < n
        invariant
            n == imei@.len(),
            all_digits(imei@),
            n <= 20,
            i <= n,
            sum == check_sum(imei@.subrange(0, i as int)),
            sum <= 9 * i,
        decreases n - i,
    {
        let c = imei.as_str().get_char(i);
        assert('0' <= imei@[i as int] <= '9');
        let d: u32 = (c as u32) - 48;
        if i % 2 == 0 {
            sum = sum + d;
        } else {
            let j: u32 = d * 2;
            sum = sum + j % 10 + j / 10;
        }
        proof {
            let p = imei@.subrange(0, i + 1);
            assert(p.drop_last() =~= imei@.subrange(0, i as int));
            assert(p.last() == c);
        }
        i = i + 1;
    }
    assert(imei@.subrange(0, n as int) =~= imei@);
    sum
}

impl ShortDevice {
    /// Whether an IMEI can be generated for the account (see `imei_ok`): what a caller tests
    /// before `generate` or `generate_imei`.
    pub fn imei_fits(uin: u32) -> (b: bool)
        ensures
            b == imei_ok(uin),
    {
        if uin < 1000 {
            return false;
        }
        let imei = imei_body_string(uin);
        check_sum_of(&imei) <= 100
    }

    /// The IMEI of an account's generated device (see `generated_imei`).
    pub fn generate_imei(uin: u32) -> (imei: String)
        requires
            imei_ok(uin),
        ensures
            imei@ == generated_imei(uin),
    {
        let mut imei = imei_body_string(uin);
        let sum = check_sum_of(&imei);
        let sp: u32 = (100 - sum) % 10;
        imei.append(digit_str(sp as u8));
        assert(imei@ =~= generated_imei(uin));
        imei
    }
}


/// The bytes of an account number's decimal text, whose digest seeds a generated device.
pub open spec fn uin_hash(uin: u32) -> Seq<u8> {
    md5_of(encode_utf8(decimal(uin as nat)))
}

/// The hexadecimal text of bytes `from..to` of a digest.
pub open spec fn hex_range(h: Seq<u8>, from: int, to: int) -> Seq<char> {
    hex_of(h.subrange(from, to))
}

/// The big-endian number of two bytes.
pub open spec fn pair_value(h: Seq<u8>, i: int) -> nat {
    (h[i] as nat) * 256 + h[i + 1] as nat
}

/// The texts of the device generated for an account, from the digest `h` of its number.
pub open spec fn generated_texts(d: ShortDevice, uin: u32, h: Seq<u8>) -> bool {
    &&& d.wifi_ssid@ == "TP-LINK-"@ + lower_hex(uin as nat)
    &&& d.android_id@ == "OICQX."@ + decimal(pair_value(h, 0)) + decimal(h[2] as nat) + "."@ + decimal(h[3] as nat) + seq![decimal(uin as nat)[0]]
    &&& d.boot_id@ == hex_range(h, 0, 4) + "-"@ + hex_range(h, 4, 6) + "-"@ + hex_range(h, 6, 8) + "-"@ + hex_range(h, 8, 10) + "-"@ + hex_range(h, 10, 16)
    &&& d.proc_version@ == "Linux version 4.19.71-"@ + decimal(pair_value(h, 4))
    &&& d.mac_address@ == "00:50:"@ + byte_upper_hex_padded(h[6]) + ":"@ + byte_upper_hex_padded(h[7]) + ":"@ + byte_upper_hex_padded(h[8]) + ":"@ + byte_upper_hex_padded(h[9])
    &&& d.ip_address@ == "10.0."@ + decimal(h[10] as nat) + "."@ + decimal(h[11] as nat)
}

/// The fixed fields of a generated device.
pub open spec fn generated_constants(d: ShortDevice) -> bool {
    &&& d.product@ == "MRS4S"@
    &&& d.device@ == "HIM188MOE"@
    &&& d.board@ == "MIRAI-YYDS"@
    &&& d.brand@ == "OICQX"@
    &&& d.model@ == "Konata 2020"@
    &&& d.bootloader@ == "U-boot"@
}

/// The device generated for an account.
pub open spec fn generated_device(d: ShortDevice, uin: u32) -> bool {
    let h = uin_hash(uin);
    &&& generated_constants(d)
    &&& generated_texts(d, uin, h)
    &&& d.imei@ == generated_imei(uin)
    &&& d.incremental as nat == (h[12] as nat) * 16777216 + (h[13] as nat) * 65536 + (h[14] as nat) * 256 + h[15] as nat
}

/// Appends the hexadecimal text of `bytes[from..to]`.
fn push_hex_range(s: &mut String, bytes: &[u8], from: usize, to: usize)
    requires
        from <= to <= bytes@.len(),
    ensures
        final(s)@ == old(s)@ + hex_of(bytes@.subrange(from as int, to as int)),
{
    let mut i = from;
    while i < to
        invariant
            from <= i <= to <= bytes@.len(),
            s@ == old(s)@ + hex_of(bytes@.subrange(from as int, i as int)),
        decreases to - i,
    {
        super::text::push_byte_hex(s, bytes[i]);
        proof {
            let p = bytes@.subrange(from as int, i + 1);
            assert(p.drop_last() =~= bytes@.subrange(from as int, i as int));
        }
        i = i + 1;
    }
}

impl ShortDevice {
    /// The device of an account, derived from the MD5 digest of its number (see
    /// `generated_device`).
    pub fn generate(uin: u32) -> (d: ShortDevice)
        requires
            imei_ok(uin),
        ensures
            generated_device(d, uin),
    {
        let uin_str = decimal_string(uin as u64);
        let hash = md5_digest(uin_str.as_str().as_bytes());
        let ghost h = hash@;
        assert(h == uin_hash(uin));

        let mut wifi_ssid = String::from_str("TP-LINK-");
        push_lower_hex(&mut wifi_ssid, uin as u64);

        let mut first: u32 = uin;
        while first >= 10
            invariant
                leading_digit(first as nat) == leading_digit(uin as nat),
            decreases first,
        {
            first = first / 10;
        }
        proof {
            lemma_decimal_digits(uin as nat);
        }
        let mut android_id = String::from_str("OICQX.");
        push_decimal(&mut android_id, (hash[0] as u64) * 256 + hash[1] as u64);
        push_decimal(&mut android_id, hash[2] as u64);
        android_id.append(".");
        push_decimal(&mut android_id, hash[3] as u64);
        android_id.append(digit_str(first as u8));

        let mut boot_id = String::new();
        push_hex_range(&mut boot_id, &hash, 0, 4);
        boot_id.append("-");
        push_hex_range(&mut boot_id, &hash, 4, 6);
        boot_id.append("-");
        push_hex_range(&mut boot_id, &hash, 6, 8);
        boot_id.append("-");
        push_hex_range(&mut boot_id, &hash, 8, 10);
        boot_id.append("-");
        push_hex_range(&mut boot_id, &hash, 10, 16);

        let mut proc_version = String::from_str("Linux version 4.19.71-");
        push_decimal(&mut proc_version, (hash[4] as u64) * 256 + hash[5] as u64);

        let mut mac_address = String::from_str("00:50:");
        push_byte_upper_hex_padded(&mut mac_address, hash[6]);
        mac_address.append(":");
        push_byte_upper_hex_padded(&mut mac_address, hash[7]);
        mac_address.append(":");
        push_byte_upper_hex_padded(&mut mac_address, hash[8]);
        mac_address.append(":");
        push_byte_upper_hex_padded(&mut mac_address, hash[9]);

        let mut ip_address = String::from_str("10.0.");
        push_decimal(&mut ip_address, hash[10] as u64);
        ip_address.append(".");
        push_decimal(&mut ip_address, hash[11] as u64);

        let imei = ShortDevice::generate_imei(uin);
        let incremental: u32 = (hash[12] as u32) * 16777216 + (hash[13] as u32) * 65536 + (hash[14] as u32) * 256 + hash[15] as u32;

        let d = ShortDevice {
            product: "MRS4S",
            device: "HIM188MOE",
            board: "MIRAI-YYDS",
            brand: "OICQX",
            model: "Konata 2020",
            wifi_ssid,
            bootloader: "U-boot",
            android_id,
            boot_id,
            proc_version,
            mac_address,
            ip_address,
            imei,
            incremental,
        };
        assert(generated_texts(d, uin, h));
        d
    }
}


/// The Android version a device reports.
#[derive(Debug, Clone)]
pub struct Version {
    pub incremental: u32,
    pub release: &'static str,
    pub codename: &'static str,
    pub sdk: u8,
}

/// A device in full, as the login packets describe it.
#[derive(Debug, Clone)]
pub struct FullDevice {
    pub product: &'static str,
    pub device: &'static str,
    pub board: &'static str,
    pub brand: &'static str,
    pub model: &'static str,
    pub wifi_ssid: String,
    pub bootloader: &'static str,
    pub android_id: String,
    pub boot_id: String,
    pub proc_version: String,
    pub mac_address: String,
    pub ip_address: String,
    pub imei: String,
    pub display: String,
    pub fingerprint: String,
    pub baseband: &'static str,
    pub sim: &'static str,
    pub os_type: &'static str,
    pub wifi_bssid: String,
    pub apn: &'static str,
    pub version: Version,
    pub imsi: [u8; 16],
    pub guid: [u8; 16],
}

/// The build fingerprint of a device.
pub open spec fn fingerprint_of(d: ShortDevice) -> Seq<char> {
    d.brand@ + "/"@ + d.product@ + "/"@ + d.device@ + ":10/"@ + d.android_id@ + "/"@ + decimal(d.incremental as nat) + ":user/release-keys"@
}

/// `f` is the full form of `d`, with `imsi` as its subscriber identity: the fields of `d`
/// carried over, the MAC address also as the Wi-Fi BSSID, the guid the digest of the IMEI and
/// the MAC address, and the fixed values of an Android 10 phone.
pub open spec fn full_device_of(d: ShortDevice, f: FullDevice, imsi: Seq<u8>) -> bool {
    &&& f.product@ == d.product@
    &&& f.device@ == d.device@
    &&& f.board@ == d.board@
    &&& f.brand@ == d.brand@
    &&& f.model@ == d.model@
    &&& f.bootloader@ == d.bootloader@
    &&& f.wifi_ssid@ == d.wifi_ssid@
    &&& f.android_id@ == d.android_id@
    &&& f.display@ == d.android_id@
    &&& f.boot_id@ == d.boot_id@
    &&& f.proc_version@ == d.proc_version@
    &&& f.mac_address@ == d.mac_address@
    &&& f.wifi_bssid@ == d.mac_address@
    &&& f.ip_address@ == d.ip_address@
    &&& f.imei@ == d.imei@
    &&& f.fingerprint@ == fingerprint_of(d)
    &&& f.baseband@ == ""@
    &&& f.sim@ == "T-Mobile"@
    &&& f.os_type@ == "android"@
    &&& f.apn@ == "wifi"@
    &&& f.version.incremental == d.incremental
    &&& f.version.release@ == "10"@
    &&& f.version.codename@ == "REL"@
    &&& f.version.sdk == 29
    &&& f.imsi@ == imsi
    &&& f.guid@ == md5_of(encode_utf8(d.imei@) + encode_utf8(d.mac_address@))
}

impl FullDevice {
    /// The full form of a device with a given subscriber identity (see `full_device_of`).
    pub fn from_parts(d: ShortDevice, imsi: [u8; 16]) -> (f: FullDevice)
        ensures
            full_device_of(d, f, imsi@),
    {
        let version = Version { incremental: d.incremental, release: "10", codename: "REL", sdk: 29 };
        let mut raw_guid: Vec<u8> = Vec::new();
        super::writer::write_bytes(&mut raw_guid, d.imei.as_str().as_bytes());
        super::writer::write_bytes(&mut raw_guid, d.mac_address.as_str().as_bytes());
        let guid = md5_digest(raw_guid.as_slice());

        let mut fingerprint = String::from_str(d.brand);
        fingerprint.append("/");
        fingerprint.append(d.product);
        fingerprint.append("/");
        fingerprint.append(d.device);
        fingerprint.append(":10/");
        fingerprint.append(d.android_id.as_str());
        fingerprint.append("/");
        push_decimal(&mut fingerprint, d.incremental as u64);
        fingerprint.append(":user/release-keys");

        let display = d.android_id.clone();
        let wifi_bssid = d.mac_address.clone();
        let f = FullDevice {
            display,
            product: d.product,
            device: d.device,
            board: d.board,
            brand: d.brand,
            model: d.model,
            bootloader: d.bootloader,
            fingerprint,
            boot_id: d.boot_id,
            proc_version: d.proc_version,
            baseband: "",
            sim: "T-Mobile",
            os_type: "android",
            mac_address: d.mac_address,
            ip_address: d.ip_address,
            wifi_bssid,
            wifi_ssid: d.wifi_ssid,
            imei: d.imei,
            android_id: d.android_id,
            apn: "wifi",
            version,
            imsi,
            guid,
        };
        f
    }

    /// The full form of a device, with a random subscriber identity.
    pub fn from(d: ShortDevice) -> (f: FullDevice)
        ensures
            full_device_of(d, f, f.imsi@),
    {
        let imsi = random_block();
        FullDevice::from_parts(d, imsi)
    }
}

} // verus!
