//! How the key of a database and the name of its file are made from each other.

use vstd::prelude::*;

use std::fmt::Display;
use std::num::ParseIntError;
use std::str::Utf8Error;

verus! {

/// The standard library's error for text that is no number.
#[verifier::external_type_specification]
#[verifier::external_body]
pub struct ExParseIntError(std::num::ParseIntError);

/// The standard library's error for bytes that are no text.
#[verifier::external_type_specification]
#[verifier::external_body]
pub struct ExUtf8Error(std::str::Utf8Error);

/// `std::str::from_utf8`: the text that the bytes encode, if they are valid UTF-8, and an error if
/// they are not.
pub assume_specification<'a>[ std::str::from_utf8 ](v: &'a [u8]) -> (r: Result<&'a str, Utf8Error>)
    ensures
        r is Ok == vstd::utf8::valid_utf8(v@),
        r matches Ok(text) ==> text@ == vstd::utf8::decode_utf8(v@),
;

/// Makes keys into file names and back.
pub trait FileKeySerializer<Pk> {
    /// What is wrong with a file name that is no key's.
    type ParseError;

    /// The file name of a key.
    fn to_string(pk: Pk) -> String;

    /// The key of a file name.
    fn from_str(s: &str) -> Result<Pk, Self::ParseError>;
}

/// Why a file name is no key's.
#[derive(Debug, PartialEq, Eq)]
pub enum FileKeyError<E> {
    /// The name does not end in `.json`.
    NotJson { message: String },
    /// What is before `.json` is no key.
    Parse(E),
}

/// The file name of a key that is shown as `shown`.
pub open spec fn json_name(shown: Seq<char>) -> Seq<char> {
    shown + ".json"@
}

/// Whether `text` ends in `suffix`.
pub open spec fn ends_in(text: Seq<char>, suffix: Seq<char>) -> bool {
    &&& suffix.len() <= text.len()
    &&& text.subrange(text.len() - suffix.len(), text.len() as int) == suffix
}

/// `text` without the `suffix` that it ends in.
pub open spec fn without(text: Seq<char>, suffix: Seq<char>) -> Seq<char> {
    text.take(text.len() - suffix.len())
}

/// `str::strip_suffix`: `s` without `suffix`, if it ends in it.
#[verifier::external_body]
fn strip_suffix<'a>(s: &'a str, suffix: &str) -> (r: Option<&'a str>)
    ensures
        r is Some == ends_in(s@, suffix@),
        r matches Some(rest) ==> rest@ == without(s@, suffix@),
{
    s.strip_suffix(suffix)
}

/// The name of the file of `pk`: what it is shown as, followed by `.json`.
pub fn key_to_string<Pk: Display>(pk: &Pk) -> (r: String)
    ensures
        exists|shown: String| #[trigger]
            vstd::string::to_string_from_display_ensures::<Pk>(pk, shown) && r@ == json_name(
                shown@,
            ),
{
    let shown = pk.to_string();
    shown.concat(".json")
}

/// The key whose file is named `s`: what `parse` makes of the part before `.json`.
pub fn key_from_str<Pk, E, P: FnOnce(&str) -> Result<Pk, E>>(s: &str, parse: P) -> (r: Result<
    Pk,
    FileKeyError<E>,
>)
    requires
        forall|text: &str| #[trigger] call_requires(parse, (text,)),
    ensures
        !ends_in(s@, ".json"@) ==> (r matches Err(FileKeyError::NotJson { message }) && message@
            == "not json: "@ + s@),
        ends_in(s@, ".json"@) ==> exists|text: &str, parsed: Result<Pk, E>| #[trigger]
            call_ensures(parse, (text,), parsed) && text@ == without(s@, ".json"@) && r == (
            match parsed {
                Ok(pk) => Ok(pk),
                Err(e) => Err(FileKeyError::Parse(e)),
            }),
{
    match strip_suffix(s, ".json") {
        None => Err(FileKeyError::NotJson { message: "not json: ".to_owned().concat(s) }),
        Some(text) => match parse(text) {
            Ok(pk) => Ok(pk),
            Err(e) => Err(FileKeyError::Parse(e)),
        },
    }
}

/// The key of an entry of a directory, by the bytes of its name. A name that is not text, or that
/// is no key's, belongs to no key.
pub fn entry_key<Pk, Fk: FileKeySerializer<Pk>>(name: &[u8]) -> (r: Option<Pk>)
    ensures
        !vstd::utf8::valid_utf8(name@) ==> r is None,
        vstd::utf8::valid_utf8(name@) ==> exists|text: &str, parsed: Result<Pk, Fk::ParseError>|
            #[trigger]
            call_ensures(Fk::from_str, (text,), parsed) && text@ == vstd::utf8::decode_utf8(name@)
                && r == parsed.ok(),
{
    match std::str::from_utf8(name) {
        Ok(text) => {
            let parsed = Fk::from_str(text);
            parsed.ok()
        },
        Err(_) => None,
    }
}

/// The decimal digit of a number below ten.
pub open spec fn digit(n: nat) -> char {
    (('0' as u32) + n) as char
}

/// A number in decimal notation.
pub open spec fn decimal(n: nat) -> Seq<char>
    decreases n,
{
    if n < 10 {
        seq![digit(n)]
    } else {
        decimal(n / 10).push(digit(n % 10))
    }
}

/// Whether `c` is a decimal digit.
pub open spec fn is_digit(c: char) -> bool {
    '0' <= c <= '9'
}

/// The number that decimal digits stand for.
pub open spec fn value(digits: Seq<char>) -> nat
    decreases digits.len(),
{
    if digits.len() == 0 {
        0
    } else {
        value(digits.drop_last()) * 10 + ((digits.last() as u32 - '0' as u32) as nat)
    }
}

/// The digits of a number that may have a plus sign in front.
pub open spec fn unsigned(text: Seq<char>) -> Seq<char> {
    if text.len() > 0 && text[0] == '+' {
        text.drop_first()
    } else {
        text
    }
}

/// The number that `text` is read as: a plus sign or none, then digits and nothing else, standing
/// for a number that fits.
pub open spec fn number(text: Seq<char>) -> Option<u64> {
    let digits = unsigned(text);
    if digits.len() > 0 && (forall|i: int| 0 <= i < digits.len() ==> is_digit(#[trigger] digits[i]))
        && value(digits) <= u64::MAX {
        Some(value(digits) as u64)
    } else {
        None
    }
}

/// `u64`'s `to_string`: the number in decimal notation.
#[verifier::external_body]
fn u64_to_string(n: u64) -> (r: String)
    ensures
        r@ == decimal(n as nat),
{
    n.to_string()
}

/// `u64`'s `from_str`: the number that the text is read as, or an error if it is no number.
#[verifier::external_body]
fn u64_from_str(text: &str) -> (r: Result<u64, ParseIntError>)
    ensures
        r is Ok == number(text@) is Some,
        r matches Ok(n) ==> number(text@) == Some(n),
{
    text.parse()
}

/// Names the file of a number: the number in decimal notation, followed by `.json`.
pub struct DotJson;

impl FileKeySerializer<u64> for DotJson {
    type ParseError = FileKeyError<ParseIntError>;

    fn to_string(pk: u64) -> (r: String)
        ensures
            r@ == json_name(decimal(pk as nat)),
    {
        u64_to_string(pk).concat(".json")
    }

    fn from_str(s: &str) -> (r: Result<u64, FileKeyError<ParseIntError>>)
        ensures
            r.ok() == named_number(s@),
            !ends_in(s@, ".json"@) ==> (r matches Err(FileKeyError::NotJson { message }) && message@
                == "not json: "@ + s@),
            ends_in(s@, ".json"@) && r is Err ==> r->Err_0 is Parse,
    {
        key_from_str(s, u64_from_str)
    }
}

/// The number whose file is named `name`.
pub open spec fn named_number(name: Seq<char>) -> Option<u64> {
    if ends_in(name, ".json"@) {
        number(without(name, ".json"@))
    } else {
        None
    }
}

/// What a file name adds to a key, reading the name takes off again.
pub proof fn law_names_end_in_json(shown: Seq<char>)
    ensures
        ends_in(json_name(shown), ".json"@),
        without(json_name(shown), ".json"@) == shown,
{
    let name = json_name(shown);
    assert(name.subrange(shown.len() as int, name.len() as int) == ".json"@);
}

/// A number in decimal notation is read as that number.
pub proof fn law_numbers_are_read_back(n: u64)
    ensures
        number(decimal(n as nat)) == Some(n),
{
    lemma_decimal(n as nat);
}

/// Decimal notation has digits only, and they stand for the number.
proof fn lemma_decimal(n: nat)
    ensures
        decimal(n).len() > 0,
        forall|i: int| 0 <= i < decimal(n).len() ==> is_digit(#[trigger] decimal(n)[i]),
        value(decimal(n)) == n,
    decreases n,
{
    reveal_with_fuel(value, 2);
    if n >= 10 {
        lemma_decimal(n / 10);
        assert(decimal(n).drop_last() == decimal(n / 10));
    } else {
        assert(decimal(n).drop_last() == Seq::<char>::empty());
    }
}

/// The file of a number is found again under that number: the bytes of its name are the text that
/// was made from the number, and the text is read as the number.
pub proof fn law_files_are_found_again(n: u64)
    ensures
        ({
            let name = vstd::utf8::encode_utf8(json_name(decimal(n as nat)));
            &&& vstd::utf8::valid_utf8(name)
            &&& named_number(vstd::utf8::decode_utf8(name)) == Some(n)
        }),
{
    let name = json_name(decimal(n as nat));
    vstd::utf8::encode_utf8_valid_utf8(name);
    vstd::utf8::encode_utf8_decode_utf8(name);
    law_names_end_in_json(decimal(n as nat));
    law_numbers_are_read_back(n);
}

/// No two numbers share a file.
pub proof fn law_numbers_have_their_own_files(m: u64, n: u64)
    requires
        json_name(decimal(m as nat)) == json_name(decimal(n as nat)),
    ensures
        m == n,
{
    law_names_end_in_json(decimal(m as nat));
    law_names_end_in_json(decimal(n as nat));
    law_numbers_are_read_back(m);
    law_numbers_are_read_back(n);
}

/// The name of a file is what its key is shown as, followed by a dot and `json`.
pub proof fn law_what_a_name_looks_like(shown: Seq<char>)
    ensures
        ({
            let name = json_name(shown);
            let n = shown.len() as int;
            &&& name.len() == n + 5
            &&& forall|i: int| 0 <= i < n ==> #[trigger] name[i] == shown[i]
            &&& name[n] == '.'
            &&& name[n + 1] == 'j'
            &&& name[n + 2] == 's'
            &&& name[n + 3] == 'o'
            &&& name[n + 4] == 'n'
        }),
{
    reveal_strlit(".json");
}

/// A text ends in another exactly if it is some text followed by it, and without it, it is that text.
pub proof fn law_what_it_is_to_end_in(text: Seq<char>, suffix: Seq<char>, rest: Seq<char>)
    ensures
        text == rest + suffix ==> ends_in(text, suffix) && without(text, suffix) == rest,
        ends_in(text, suffix) ==> text == without(text, suffix) + suffix,
{
    if text == rest + suffix {
        assert(text.subrange(rest.len() as int, text.len() as int) == suffix);
        assert(text.take(rest.len() as int) == rest);
    }
    if ends_in(text, suffix) {
        let start = text.len() - suffix.len();
        assert forall|i: int| 0 <= i < text.len() implies #[trigger] text[i] == (without(
            text,
            suffix,
        ) + suffix)[i] by {
            if i >= start {
                assert(text.subrange(start, text.len() as int)[i - start] == suffix[i - start]);
            }
        }
        assert(text =~= without(text, suffix) + suffix);
    }
}

/// The digits of a number in decimal notation: the one with `i` digits after it stands for so many
/// times the `i`-th power of ten, there is no digit too many in front, and none is missing.
pub proof fn law_the_digits_of_a_number(n: nat, i: nat)
    ensures
        decimal(n).len() > 0,
        i < decimal(n).len() ==> decimal(n)[decimal(n).len() - 1 - i] as int == 48 + (n as int
            / vstd::arithmetic::power::pow(10, i)) % 10,
        n < vstd::arithmetic::power::pow(10, decimal(n).len()),
        decimal(n).len() > 1 ==> n >= vstd::arithmetic::power::pow(
            10,
            (decimal(n).len() - 1) as nat,
        ),
    decreases n,
{
    vstd::arithmetic::power::lemma_pow0(10);
    vstd::arithmetic::power::lemma_pow1(10);
    if n < 10 {
        assert(decimal(n) == seq![digit(n)]);
        assert(digit(n) as int == 48 + n);
        assert(n as int / 1 == n);
    } else {
        let fewer = decimal(n / 10);
        let last = n % 10;
        assert(decimal(n) == fewer.push(digit(last)));
        assert(digit(last) as int == 48 + last);
        lemma_pow_ten(fewer.len());
        if i == 0 {
            law_the_digits_of_a_number(n / 10, 0);
            assert(decimal(n)[decimal(n).len() - 1] == digit(last));
            assert(n as int / 1 == n);
        } else {
            let rest = (i - 1) as nat;
            law_the_digits_of_a_number(n / 10, rest);
            let p = vstd::arithmetic::power::pow(10, rest);
            lemma_pow_ten(rest);
            assert((n as int / 10) / p == n as int / (10 * p)) by {
                vstd::arithmetic::div_mod::lemma_div_denominator(n as int, 10, p);
            }
            if i < decimal(n).len() {
                assert(decimal(n)[decimal(n).len() - 1 - i] == fewer[fewer.len() - 1 - rest]);
            }
        }
        if fewer.len() > 1 {
            lemma_pow_ten((fewer.len() - 1) as nat);
        }
    }
}

/// A power of ten is positive, and the next one is ten times as large.
proof fn lemma_pow_ten(e: nat)
    ensures
        vstd::arithmetic::power::pow(10, e) > 0,
        vstd::arithmetic::power::pow(10, e + 1) == 10 * vstd::arithmetic::power::pow(10, e),
{
    vstd::arithmetic::power::lemma_pow_positive(10, e);
    vstd::arithmetic::power::lemma_pow_adds(10, 1, e);
    vstd::arithmetic::power::lemma_pow1(10);
}

/// How a number is read, one digit after the other: a digit alone is the number that it stands for,
/// and a digit that follows makes the number ten times as large and adds to it, as long as the result
/// fits. What was no number because it did not fit is none with more digits either.
pub proof fn law_numbers_are_read_digit_by_digit(text: Seq<char>, c: char)
    requires
        '0' <= c <= '9',
        forall|i: int| 0 <= i < text.len() ==> '0' <= #[trigger] text[i] <= '9',
    ensures
        text.len() == 0 ==> number(text.push(c)) == Some((c as int - 48) as u64),
        text.len() > 0 ==> number(text.push(c)) == match number(text) {
            Some(n) => if n * 10 + (c as int - 48) <= u64::MAX {
                Some((n * 10 + (c as int - 48)) as u64)
            } else {
                None
            },
            None => None,
        },
{
    reveal_with_fuel(value, 2);
    let longer = text.push(c);
    assert(longer.drop_last() =~= text);
    assert forall|i: int| 0 <= i < longer.len() implies is_digit(#[trigger] longer[i]) by {
        if i < text.len() {
            assert('0' <= text[i] <= '9');
        }
    }
    assert forall|i: int| 0 <= i < text.len() implies is_digit(#[trigger] text[i]) by {
        assert('0' <= text[i] <= '9');
    }
    assert(longer[0] != '+');
    assert(unsigned(longer) == longer);
    assert(unsigned(text) == text);
    if text.len() == 0 {
        assert(text =~= Seq::<char>::empty());
        assert(value(text) == 0);
    }
}

/// A plus sign in front of digits makes no difference.
pub proof fn law_a_plus_sign_makes_no_difference(digits: Seq<char>)
    requires
        digits.len() == 0 || digits[0] != '+',
    ensures
        number(seq!['+'] + digits) == number(digits),
{
    let signed = seq!['+'] + digits;
    assert(signed.drop_first() =~= digits);
}

/// Text that has anything but digits in it, other than a plus sign in front, is no number, and
/// neither is text without digits.
pub proof fn law_only_digits_make_a_number(text: Seq<char>, i: int)
    requires
        0 <= i < text.len(),
        !('0' <= text[i] <= '9'),
        i > 0 || text[0] != '+' || text.len() == 1,
    ensures
        number(text) is None,
        number(Seq::<char>::empty()) is None,
{
    let digits = unsigned(text);
    if text[0] == '+' {
        if i > 0 {
            assert(digits[i - 1] == text[i]);
        }
    } else {
        assert(digits[i] == text[i]);
    }
}

/// A file belongs to a number exactly if its name is text that is read as the number, followed by
/// `.json`.
pub proof fn law_the_number_of_a_file(name: Seq<char>, rest: Seq<char>)
    ensures
        named_number(rest + ".json"@) == number(rest),
        named_number(name) is Some ==> exists|text: Seq<char>|
            #![trigger number(text)]
            name == text + ".json"@ && number(text) == named_number(name),
{
    law_what_it_is_to_end_in(rest + ".json"@, ".json"@, rest);
    law_what_it_is_to_end_in(name, ".json"@, rest);
    if named_number(name) is Some {
        let text = without(name, ".json"@);
        assert(name == text + ".json"@ && number(text) == named_number(name));
    }
}

/// To make a number into a name and to read the name gives the number; no other number has that
/// name; and an error is about the ending exactly if that is wrong.
pub proof fn law_names_of_numbers(pk: u64, name: String, s: &str, r: Result<
    u64,
    FileKeyError<ParseIntError>,
>)
    requires
        call_ensures(<DotJson as FileKeySerializer<u64>>::to_string, (pk,), name),
        call_ensures(<DotJson as FileKeySerializer<u64>>::from_str, (s,), r),
    ensures
        name@ == decimal(pk as nat) + ".json"@,
        s@ == name@ ==> r == Ok::<u64, FileKeyError<ParseIntError>>(pk),
        (forall|text: Seq<char>| #[trigger] (text + ".json"@) != s@) <==> r matches Err(
            FileKeyError::NotJson { message },
        ),
        r matches Ok(n) ==> exists|text: Seq<char>|
            #![trigger number(text)]
            s@ == text + ".json"@ && number(text) == Some(n),
{
    law_names_end_in_json(decimal(pk as nat));
    law_numbers_are_read_back(pk);
    law_the_number_of_a_file(s@, decimal(pk as nat));
    law_what_it_is_to_end_in(s@, ".json"@, decimal(pk as nat));
    if exists|text: Seq<char>| #[trigger] (text + ".json"@) == s@ {
        let text = choose|text: Seq<char>| #[trigger] (text + ".json"@) == s@;
        law_what_it_is_to_end_in(s@, ".json"@, text);
    }
    if ends_in(s@, ".json"@) {
        assert(without(s@, ".json"@) + ".json"@ == s@);
    }
}

/// The key of an entry is what is read from its name, if the name is text.
pub proof fn law_keys_come_from_names<Pk, Fk: FileKeySerializer<Pk>>(
    name: &[u8],
    r: Option<Pk>,
    pk: Option<Pk>,
)
    requires
        call_ensures(entry_key::<Pk, Fk>, (name,), r),
        forall|text: &str, parsed: Result<Pk, Fk::ParseError>| #[trigger]
            call_ensures(Fk::from_str, (text,), parsed) && text@ == vstd::utf8::decode_utf8(name@)
                ==> parsed.ok() == pk,
    ensures
        r == if vstd::utf8::valid_utf8(name@) {
            pk
        } else {
            None
        },
{
}

/// To name the file of a key and to read the name hands the parser what the key was shown as; and a
/// name that does not end in `.json` is not handed to it at all.
pub proof fn law_parsers_get_what_was_shown<Pk: Display, E, P: FnOnce(&str) -> Result<Pk, E>>(
    pk: Pk,
    name: String,
    parse: P,
    s: &str,
    r: Result<Pk, FileKeyError<E>>,
)
    requires
        call_ensures(key_to_string::<Pk>, (&pk,), name),
        call_ensures(key_from_str::<Pk, E, P>, (s, parse), r),
    ensures
        s@ == name@ ==> exists|shown: String, text: &str, parsed: Result<Pk, E>|
            {
                &&& #[trigger] vstd::string::to_string_from_display_ensures::<Pk>(&pk, shown)
                &&& #[trigger] call_ensures(parse, (text,), parsed)
                &&& text@ == shown@
                &&& parsed matches Ok(key) ==> r == Ok::<Pk, FileKeyError<E>>(key)
                &&& parsed matches Err(e) ==> r == Err::<Pk, FileKeyError<E>>(
                    FileKeyError::Parse(e),
                )
            },
        (forall|text: Seq<char>| #[trigger] (text + ".json"@) != s@) <==> r matches Err(
            FileKeyError::NotJson { message },
        ),
        r matches Err(FileKeyError::NotJson { message }) ==> message@ == "not json: "@ + s@,
{
    let shown = choose|shown: String| #[trigger]
        vstd::string::to_string_from_display_ensures::<Pk>(&pk, shown) && name@ == json_name(
            shown@,
        );
    law_names_end_in_json(shown@);
    law_what_it_is_to_end_in(s@, ".json"@, shown@);
    if exists|text: Seq<char>| #[trigger] (text + ".json"@) == s@ {
        let text = choose|text: Seq<char>| #[trigger] (text + ".json"@) == s@;
        law_what_it_is_to_end_in(s@, ".json"@, text);
    }
    if ends_in(s@, ".json"@) {
        assert(without(s@, ".json"@) + ".json"@ == s@);
        let (text, parsed) = choose|text: &str, parsed: Result<Pk, E>| #[trigger]
            call_ensures(parse, (text,), parsed) && text@ == without(s@, ".json"@) && r == (
            match parsed {
                Ok(pk) => Ok::<Pk, FileKeyError<E>>(pk),
                Err(e) => Err(FileKeyError::Parse(e)),
            });
        assert(call_ensures(parse, (text,), parsed));
    }
}

} // verus!
