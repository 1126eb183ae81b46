//! The Groth16 (BN254) proving backend, without the pairing arithmetic: the rank-one constraint
//! plan of a circuit, the proof bundle and its text and JSON forms, and the checks made before a
//! bundle is handed to the pairing check.
use vstd::prelude::*;

use crate::ast::type_bits;
use crate::field::fits_bits;
use crate::error::{RuntimeError, RuntimeResult};
use crate::eval::eq_str;
use crate::field::{limbs_value, parsed_value, FieldElement};
use crate::ir::{op_lhs, op_rhs, CircuitIr, Constraint, NamedInput, OpKind, Operand, Operation, RangeConstraint};
use crate::listing::named_value_json;
use crate::records::{lemma_split_nonempty, split_at_char, split_lines, split_on, text_lines, trim, trimmed};
use crate::debug_proof::{
    blank_line, field_error, field_line, is_record, last_record, lemma_digits_plain, lemma_field_line_shape, lemma_last_record_skip,
    lemma_lines_text_one, lemma_named_lines_read, lemma_named_only, lemma_named_records_text, lemma_named_value_shape,
    lemma_record_fields, named_lines, named_record_values, named_values_read, plain_last_field, plain_named, named_records,
    record_line, record_lines, string_view,
};
use crate::records::{has_no, lemma_lines_text_concat, lines_text, strip_cr};
use crate::text::{
    decimal, json_array_text, json_string, push_char, push_decimal, push_json_array, push_str, quoted,
    to_owned, views,
};
use crate::trace::{writes_in_range, NamedValue, WitnessTrace};

use ark_bn254::{Bn254, Fr};
use ark_ff::BigInt;
use ark_groth16::{Groth16, Proof, VerifyingKey};
use ark_serialize::CanonicalDeserialize;
use ark_snark::SNARK;

verus! {

pub const GROTH16_BACKEND_NAME: &'static str = "groth16-bn254";

#[derive(Debug, PartialEq, Eq)]
pub struct Groth16ProofBundle {
    pub backend: String,
    pub circuit: String,
    pub public_inputs: Vec<NamedValue>,
    pub public_outputs: Vec<NamedValue>,
    pub proof_hex: String,
}

#[derive(Debug, PartialEq, Eq)]
pub struct Groth16VerificationReport {
    pub backend: String,
    pub circuit: String,
    pub public_inputs: usize,
    pub public_outputs: usize,
}

// ----- hex ------------------------------------------------------------------------------------

pub open spec fn hex_digit(d: nat) -> char {
    if d < 10 {
        (48 + d) as char
    } else {
        (87 + d) as char
    }
}

/// Two lower-case hexadecimal digits per byte.
pub open spec fn hex_text(bytes: Seq<u8>) -> Seq<char>
    decreases bytes.len(),
{
    if bytes.len() == 0 {
        Seq::empty()
    } else {
        hex_text(bytes.drop_last()) + seq![hex_digit(bytes.last() as nat / 16), hex_digit(bytes.last() as nat % 16)]
    }
}

/// The value of a hexadecimal digit (either case).
pub open spec fn nibble_value(b: u8) -> Option<u8> {
    if 48 <= b <= 57 {
        Some((b - 48) as u8)
    } else if 97 <= b <= 102 {
        Some((b - 87) as u8)
    } else if 65 <= b <= 70 {
        Some((b - 55) as u8)
    } else {
        None
    }
}

/// The bytes that pairs of hexadecimal digits stand for.
pub open spec fn hex_decoded(text: Seq<u8>) -> Option<Seq<u8>> {
    if text.len() % 2 == 0 && forall|i: int| 0 <= i < text.len() ==> #[trigger] nibble_value(text[i]) is Some {
        Some(Seq::new(text.len() / 2, |k: int| (nibble_value(text[2 * k])->0 * 16 + nibble_value(text[2 * k + 1])->0) as u8))
    } else {
        None
    }
}

/// The lower-case hexadecimal text of `bytes`.
pub fn bytes_to_hex(bytes: &[u8]) -> (s: String)
    ensures
        s@ == hex_text(bytes@),
{
    let mut out = String::new();
    let mut i: usize = 0;
    while i < bytes.len()
        invariant
            i <= bytes@.len(),
            out@ == hex_text(bytes@.subrange(0, i as int)),
        decreases bytes.len() - i,
    {
        let b = bytes[i];
        let high = b / 16;
        let low = b % 16;
        push_char(&mut out, hex_char_of(high));
        push_char(&mut out, hex_char_of(low));
        proof {
            let done = bytes@.subrange(0, i + 1);
            assert(done.drop_last() =~= bytes@.subrange(0, i as int));
            assert(out@ =~= hex_text(done));
        }
        i = i + 1;
    }
    assert(bytes@.subrange(0, i as int) =~= bytes@);
    out
}

proof fn lemma_hex_text_shape(bytes: Seq<u8>)
    ensures
        hex_text(bytes).len() == 2 * bytes.len(),
        forall|k: int| 0 <= k < bytes.len() ==> hex_text(bytes)[2 * k] == hex_digit(#[trigger] bytes[k] as nat / 16)
            && hex_text(bytes)[2 * k + 1] == hex_digit(bytes[k] as nat % 16),
    decreases bytes.len(),
{
    if bytes.len() > 0 {
        let rest = bytes.drop_last();
        lemma_hex_text_shape(rest);
        assert forall|k: int| 0 <= k < bytes.len() implies hex_text(bytes)[2 * k] == hex_digit(#[trigger] bytes[k] as nat / 16)
            && hex_text(bytes)[2 * k + 1] == hex_digit(bytes[k] as nat % 16) by {
            if k < rest.len() {
                assert(rest[k] == bytes[k]);
            }
        }
    }
}

proof fn lemma_hex_digit_byte(d: nat)
    requires
        d < 16,
    ensures
        '\0' <= hex_digit(d) <= '\u{7f}',
        nibble_value(hex_digit(d) as u8) == Some(d as u8),
{
}

/// Decoding the hexadecimal text of some bytes gives those bytes back.
pub proof fn lemma_hex_round_trip(bytes: Seq<u8>)
    ensures
        hex_decoded(vstd::utf8::encode_utf8(hex_text(bytes))) == Some(bytes),
{
    let chars = hex_text(bytes);
    lemma_hex_text_shape(bytes);
    assert forall|i: int| 0 <= i < chars.len() implies '\0' <= #[trigger] chars[i] <= '\u{7f}'
        && nibble_value(chars[i] as u8) is Some by {
        let k = i / 2;
        assert(bytes[k] == bytes[k]);
        if i % 2 == 0 {
            assert(i == 2 * k);
            lemma_hex_digit_byte(bytes[k] as nat / 16);
        } else {
            assert(i == 2 * k + 1);
            lemma_hex_digit_byte(bytes[k] as nat % 16);
        }
    }
    assert(vstd::utf8::is_ascii_chars(chars));
    vstd::utf8::is_ascii_chars_encode_utf8(chars);
    let text = vstd::utf8::encode_utf8(chars);
    assert forall|i: int| 0 <= i < text.len() implies #[trigger] nibble_value(text[i]) is Some by {
        assert(chars[i] as u8 == text[i]);
    }
    let decoded = hex_decoded(text)->0;
    assert forall|k: int| 0 <= k < bytes.len() implies #[trigger] decoded[k] == bytes[k] by {
        assert(chars[2 * k] as u8 == text[2 * k]);
        assert(chars[2 * k + 1] as u8 == text[2 * k + 1]);
        lemma_hex_digit_byte(bytes[k] as nat / 16);
        lemma_hex_digit_byte(bytes[k] as nat % 16);
    }
    assert(decoded =~= bytes);
}

fn hex_char_of(d: u8) -> (c: char)
    requires
        d < 16,
    ensures
        c == hex_digit(d as nat),
{
    if d < 10 {
        ((48 + d) as u8) as char
    } else {
        ((87 + d) as u8) as char
    }
}

/// The message for a byte that is no hexadecimal digit.
pub open spec fn invalid_hex_message(b: u8) -> Seq<char> {
    "invalid hex character `"@ + seq![b as char] + "`"@
}

/// Byte `i` of `text` is the first that is no hexadecimal digit.
pub open spec fn first_bad_nibble(text: Seq<u8>, i: int) -> bool {
    &&& 0 <= i < text.len()
    &&& nibble_value(text[i]) is None
    &&& forall|j: int| 0 <= j < i ==> #[trigger] nibble_value(text[j]) is Some
}

fn decode_hex_nibble(b: u8) -> (r: RuntimeResult<u8>)
    ensures
        r matches Ok(v) ==> nibble_value(b) == Some(v),
        r is Err <==> nibble_value(b) is None,
        r matches Err(e) ==> e.message@ == invalid_hex_message(b),
{
    if 48 <= b && b <= 57 {
        Ok(b - 48)
    } else if 97 <= b && b <= 102 {
        Ok(b - 87)
    } else if 65 <= b && b <= 70 {
        Ok(b - 55)
    } else {
        let mut message = to_owned("invalid hex character `");
        push_char(&mut message, b as char);
        push_str(&mut message, "`");
        proof {
            assert(message@ =~= invalid_hex_message(b));
        }
        Err(RuntimeError::new(message))
    }
}

/// Why `text` is no hexadecimal payload: an odd length, else its first byte that is no
/// hexadecimal digit.
pub open spec fn hex_error_message(text: Seq<u8>) -> Seq<char> {
    if text.len() % 2 != 0 {
        "hex payload must have even length"@
    } else {
        invalid_hex_message(text[choose|i: int| first_bad_nibble(text, i)])
    }
}

proof fn lemma_first_bad_nibble_unique(text: Seq<u8>, i: int)
    requires
        first_bad_nibble(text, i),
    ensures
        forall|j: int| #[trigger] first_bad_nibble(text, j) ==> j == i,
{
    assert forall|j: int| #[trigger] first_bad_nibble(text, j) implies j == i by {
        if j < i {
            assert(nibble_value(text[j]) is Some);
        } else if i < j {
            assert(nibble_value(text[i]) is Some);
        }
    }
}

/// The bytes that the hexadecimal text `input` stands for.
pub fn hex_to_bytes(input: &str) -> (r: RuntimeResult<Vec<u8>>)
    ensures
        r matches Ok(bytes) ==> hex_decoded(vstd::utf8::encode_utf8(input@)) == Some(bytes@),
        r is Err <==> hex_decoded(vstd::utf8::encode_utf8(input@)) is None,
        r matches Err(e) ==> e.message@ == hex_error_message(vstd::utf8::encode_utf8(input@)),
{
    let bytes = input.as_bytes();
    let ghost text = bytes@;
    if bytes.len() % 2 != 0 {
        return Err(RuntimeError::new(to_owned("hex payload must have even length")));
    }
    let mut out: Vec<u8> = Vec::new();
    let mut index: usize = 0;
    while index < bytes.len()
        invariant
            index <= bytes@.len(),
            index % 2 == 0,
            bytes@.len() % 2 == 0,
            text == bytes@,
            text == vstd::utf8::encode_utf8(input@),
            out@.len() == index / 2,
            forall|i: int| 0 <= i < index ==> #[trigger] nibble_value(text[i]) is Some,
            forall|k: int| 0 <= k < index / 2 ==> #[trigger] out@[k] == (nibble_value(text[2 * k])->0 * 16
                + nibble_value(text[2 * k + 1])->0) as u8,
        decreases bytes.len() - index,
    {
        let high = match decode_hex_nibble(bytes[index]) {
            Ok(v) => v,
            Err(e) => {
                assert(!(nibble_value(text[index as int]) is Some));
                assert(first_bad_nibble(text, index as int));
                proof {
                    lemma_first_bad_nibble_unique(text, index as int);
                }
                return Err(e);
            },
        };
        let low = match decode_hex_nibble(bytes[index + 1]) {
            Ok(v) => v,
            Err(e) => {
                assert(!(nibble_value(text[index + 1]) is Some));
                assert forall|j: int| 0 <= j < index + 1 implies #[trigger] nibble_value(text[j]) is Some by {
                    if j == index {
                        assert(nibble_value(text[index as int]) is Some);
                    }
                }
                assert(first_bad_nibble(text, index + 1));
                proof {
                    lemma_first_bad_nibble_unique(text, index + 1);
                }
                return Err(e);
            },
        };
        out.push(high * 16 + low);
        index = index + 2;
    }
    assert(out@ =~= hex_decoded(text)->0);
    Ok(out)
}

// ----- bundle artifacts -----------------------------------------------------------------------

/// The text artifact of a bundle.
pub open spec fn bundle_text(b: Groth16ProofBundle) -> Seq<char> {
    "zkc-groth16-proof-v1\n"@ + record_line("backend"@, b.backend@) + record_line("circuit"@, b.circuit@)
        + named_records("public"@, b.public_inputs@) + named_records("output"@, b.public_outputs@)
        + record_line("proof"@, b.proof_hex@)
}

fn push_record(out: &mut String, tag: &str, value: &str)
    ensures
        final(out)@ == old(out)@ + record_line(tag@, value@),
{
    push_str(out, tag);
    push_char(out, '|');
    push_str(out, value);
    push_char(out, '\n');
    assert(out@ =~= old(out)@ + record_line(tag@, value@));
}

fn push_named_records(out: &mut String, tag: &str, values: &Vec<NamedValue>)
    ensures
        final(out)@ == old(out)@ + named_records(tag@, values@),
{
    let mut i: usize = 0;
    while i < values.len()
        invariant
            i <= values@.len(),
            out@ == old(out)@ + named_records(tag@, values@.subrange(0, i as int)),
        decreases values.len() - i,
    {
        let mut value = String::new();
        push_str(&mut value, values[i].name.as_str());
        push_char(&mut value, '|');
        push_str(&mut value, values[i].value.to_string().as_str());
        push_record(out, tag, value.as_str());
        proof {
            let done = values@.subrange(0, i + 1);
            assert(done.drop_last() =~= values@.subrange(0, i as int));
            assert(out@ =~= old(out)@ + named_records(tag@, done));
        }
        i = i + 1;
    }
    assert(values@.subrange(0, i as int) =~= values@);
}

fn named_values_array(values: &Vec<NamedValue>) -> (s: String)
    ensures
        s@ == json_array_text(values@.map_values(|v: NamedValue| named_value_json(v))),
{
    let mut parts: Vec<String> = Vec::new();
    let mut k: usize = 0;
    while k < values.len()
        invariant
            k <= values@.len(),
            parts@.len() == k,
            forall|j: int| 0 <= j < k ==> (#[trigger] parts@[j])@ == named_value_json(values@[j]),
        decreases values.len() - k,
    {
        let mut part = to_owned("{\"name\":");
        push_str(&mut part, json_string(values[k].name.as_str()).as_str());
        push_str(&mut part, ",\"value\":");
        push_str(&mut part, json_string(values[k].value.to_string().as_str()).as_str());
        push_str(&mut part, "}");
        parts.push(part);
        k = k + 1;
    }
    assert(views(parts@) =~= values@.map_values(|v: NamedValue| named_value_json(v)));
    let mut out = String::new();
    push_json_array(&mut out, &parts);
    out
}

impl Groth16ProofBundle {
    /// The text artifact: a header line, then one `tag|value` record per line.
    pub fn to_text(&self) -> (s: String)
        ensures
            s@ == bundle_text(*self),
    {
        let mut out = to_owned("zkc-groth16-proof-v1\n");
        push_record(&mut out, "backend", self.backend.as_str());
        push_record(&mut out, "circuit", self.circuit.as_str());
        push_named_records(&mut out, "public", &self.public_inputs);
        push_named_records(&mut out, "output", &self.public_outputs);
        push_record(&mut out, "proof", self.proof_hex.as_str());
        out
    }

    /// The JSON document of the bundle.
    pub fn to_json(&self) -> (s: String)
        ensures
            s@ == "{\"backend\":"@ + quoted(self.backend@) + ",\"circuit\":"@ + quoted(self.circuit@)
                + ",\"public_inputs\":"@ + json_array_text(self.public_inputs@.map_values(|v: NamedValue| named_value_json(v)))
                + ",\"public_outputs\":"@ + json_array_text(self.public_outputs@.map_values(|v: NamedValue| named_value_json(v)))
                + ",\"proof_hex\":"@ + quoted(self.proof_hex@) + "}"@,
    {
        let mut out = to_owned("{\"backend\":");
        push_str(&mut out, json_string(self.backend.as_str()).as_str());
        push_str(&mut out, ",\"circuit\":");
        push_str(&mut out, json_string(self.circuit.as_str()).as_str());
        push_str(&mut out, ",\"public_inputs\":");
        push_str(&mut out, named_values_array(&self.public_inputs).as_str());
        push_str(&mut out, ",\"public_outputs\":");
        push_str(&mut out, named_values_array(&self.public_outputs).as_str());
        push_str(&mut out, ",\"proof_hex\":");
        push_str(&mut out, json_string(self.proof_hex.as_str()).as_str());
        push_str(&mut out, "}");
        out
    }
}

impl Groth16VerificationReport {
    pub fn to_json(&self) -> (s: String)
        ensures
            s@ == "{\"backend\":"@ + quoted(self.backend@) + ",\"circuit\":"@ + quoted(self.circuit@)
                + ",\"public_inputs\":"@ + decimal(self.public_inputs as nat) + ",\"public_outputs\":"@
                + decimal(self.public_outputs as nat) + "}"@,
    {
        let mut out = to_owned("{\"backend\":");
        push_str(&mut out, json_string(self.backend.as_str()).as_str());
        push_str(&mut out, ",\"circuit\":");
        push_str(&mut out, json_string(self.circuit.as_str()).as_str());
        push_str(&mut out, ",\"public_inputs\":");
        push_decimal(&mut out, self.public_inputs as u128);
        push_str(&mut out, ",\"public_outputs\":");
        push_decimal(&mut out, self.public_outputs as u128);
        push_str(&mut out, "}");
        out
    }

    /// The report as lines of text.
    pub fn to_text(&self) -> (s: String)
        ensures
            s@ == "verified groth16 proof for "@ + self.circuit@ + " via "@ + self.backend@ + "\npublic inputs: "@
                + decimal(self.public_inputs as nat) + "\npublic outputs: "@ + decimal(self.public_outputs as nat)
                + "\n"@,
    {
        let mut out = to_owned("verified groth16 proof for ");
        push_str(&mut out, self.circuit.as_str());
        push_str(&mut out, " via ");
        push_str(&mut out, self.backend.as_str());
        push_str(&mut out, "\npublic inputs: ");
        push_decimal(&mut out, self.public_inputs as u128);
        push_str(&mut out, "\npublic outputs: ");
        push_decimal(&mut out, self.public_outputs as u128);
        push_str(&mut out, "\n");
        out
    }
}

fn parse_named_value(name: &String, value: &String) -> (r: RuntimeResult<NamedValue>)
    ensures
        r matches Ok(v) ==> v.name@ == name@ && parsed_value(value@) == Some(v.value@),
        r is Err <==> parsed_value(value@) is None,
        r matches Err(e) ==> e.message@ == field_error(value@),
{
    match FieldElement::parse(value.as_str()) {
        Ok(parsed) => Ok(NamedValue { name: name.clone(), value: parsed }),
        Err(message) => Err(RuntimeError::new(message)),
    }
}

pub open spec fn bundle_header() -> Seq<char> {
    "zkc-groth16-proof-v1"@
}

/// The failure a line of a bundle after the header raises, if any.
pub open spec fn bundle_line_error(line: Seq<char>) -> Option<Seq<char>> {
    let parts = split_on(line, '|');
    if blank_line(line) {
        None
    } else if parts.len() == 2 && (parts[0] == "backend"@ || parts[0] == "circuit"@ || parts[0] == "proof"@) {
        None
    } else if parts.len() == 3 && (parts[0] == "public"@ || parts[0] == "output"@) {
        if parsed_value(parts[2]) is Some {
            None
        } else {
            Some(field_error(parts[2]))
        }
    } else {
        Some("malformed groth16 proof artifact line `"@ + line + "`"@)
    }
}

/// The failure of the first failing line of a bundle.
pub open spec fn first_bundle_error(lines: Seq<Seq<char>>) -> Option<Seq<char>>
    decreases lines.len(),
{
    if lines.len() == 0 {
        None
    } else {
        match first_bundle_error(lines.drop_last()) {
            Some(e) => Some(e),
            None => bundle_line_error(lines.last()),
        }
    }
}

/// The failure of the first missing single record, in the order backend, circuit, proof.
pub open spec fn missing_bundle_record(lines: Seq<Seq<char>>) -> Option<Seq<char>> {
    if last_record(lines, "backend"@) is None {
        Some("missing `backend` record"@)
    } else if last_record(lines, "circuit"@) is None {
        Some("missing `circuit` record"@)
    } else if last_record(lines, "proof"@) is None {
        Some("missing `proof` record"@)
    } else {
        None
    }
}

proof fn lemma_first_bundle_error_prefix(lines: Seq<Seq<char>>, k: int)
    requires
        0 <= k <= lines.len(),
        first_bundle_error(lines.subrange(0, k)) is Some,
    ensures
        first_bundle_error(lines) == first_bundle_error(lines.subrange(0, k)),
    decreases lines.len(),
{
    if lines.len() == k {
        assert(lines.subrange(0, k) =~= lines);
    } else {
        assert(lines.drop_last().subrange(0, k) =~= lines.subrange(0, k));
        lemma_first_bundle_error_prefix(lines.drop_last(), k);
    }
}

/// Reads the text artifact of a Groth16 proof bundle.
///
/// The first line must be the header; every other non-blank line is a `backend`, `circuit`,
/// `proof` (`tag|value`), `public` or `output` (`tag|name|value`) record. Fails on an empty
/// artifact, a wrong header, the first malformed line or bad field element, and a missing
/// `backend`, `circuit` or `proof` record; a later single record replaces an earlier one.
pub fn parse_groth16_proof_bundle(input: &str) -> (r: RuntimeResult<Groth16ProofBundle>)
    ensures
        text_lines(input@).len() == 0 ==> (r matches Err(e) && e.message@ == "proof artifact is empty"@),
        text_lines(input@).len() > 0 && trimmed(text_lines(input@)[0]) != bundle_header()
            ==> (r matches Err(e) && e.message@ == "unrecognized groth16 proof artifact header"@),
        text_lines(input@).len() > 0 && trimmed(text_lines(input@)[0]) == bundle_header() ==> {
            &&& first_bundle_error(record_lines(input@)) matches Some(m) ==> (r matches Err(e) && e.message@ == m)
            &&& first_bundle_error(record_lines(input@)) is None ==> (missing_bundle_record(record_lines(input@)) matches Some(m)
                ==> (r matches Err(e) && e.message@ == m))
            &&& first_bundle_error(record_lines(input@)) is None && missing_bundle_record(record_lines(input@)) is None ==> r is Ok
        },
        r matches Ok(b) ==> {
            let lines = record_lines(input@);
            &&& text_lines(input@).len() > 0 && trimmed(text_lines(input@)[0]) == bundle_header()
            &&& first_bundle_error(lines) is None
            &&& Some(b.backend@) == last_record(lines, "backend"@)
            &&& Some(b.circuit@) == last_record(lines, "circuit"@)
            &&& Some(b.proof_hex@) == last_record(lines, "proof"@)
            &&& named_values_read(b.public_inputs@, named_record_values(lines, "public"@))
            &&& named_values_read(b.public_outputs@, named_record_values(lines, "output"@))
        },
{
    let lines = split_lines(input);
    if lines.len() == 0 {
        return Err(RuntimeError::new(to_owned("proof artifact is empty")));
    }
    let header = trim(lines[0].as_str());
    proof {
        reveal_strlit("zkc-groth16-proof-v1");
    }
    assert(lines@[0]@ == text_lines(input@)[0]);
    if !eq_str(header.as_str(), "zkc-groth16-proof-v1") {
        return Err(RuntimeError::new(to_owned("unrecognized groth16 proof artifact header")));
    }
    let ghost all = record_lines(input@);
    let mut backend: Option<String> = None;
    let mut circuit: Option<String> = None;
    let mut proof_hex: Option<String> = None;
    let mut public_inputs: Vec<NamedValue> = Vec::new();
    let mut public_outputs: Vec<NamedValue> = Vec::new();
    let mut i: usize = 1;
    assert(all.subrange(0, 0) =~= Seq::<Seq<char>>::empty());
    while i < lines.len()
        invariant
            1 <= i <= lines@.len(),
            views(lines@) == text_lines(input@),
            trimmed(text_lines(input@)[0]) == bundle_header(),
            all == record_lines(input@),
            all.len() == lines@.len() - 1,
            first_bundle_error(all.subrange(0, i - 1)) is None,
            string_view(backend) == last_record(all.subrange(0, i - 1), "backend"@),
            string_view(circuit) == last_record(all.subrange(0, i - 1), "circuit"@),
            string_view(proof_hex) == last_record(all.subrange(0, i - 1), "proof"@),
            named_values_read(public_inputs@, named_record_values(all.subrange(0, i - 1), "public"@)),
            named_values_read(public_outputs@, named_record_values(all.subrange(0, i - 1), "output"@)),
        decreases lines.len() - i,
    {
        let line = &lines[i];
        let ghost done = all.subrange(0, i as int);
        proof {
            assert(done.drop_last() =~= all.subrange(0, i - 1));
            assert(done.last() == line@);
        }
        i = i + 1;
        if eq_str(trim(line.as_str()).as_str(), "") {
            proof {
                reveal_strlit("");
                assert(blank_line(line@));
            }
            continue;
        }
        let parts = split_at_char(line.as_str(), '|');
        proof {
            lemma_split_nonempty(line@, '|');
        }
        assert(!blank_line(line@)) by {
            reveal_strlit("");
            if trimmed(line@).len() == 0 {
                assert(trimmed(line@) =~= ""@);
            }
        }
        let tag = parts[0].as_str();
        assert(views(parts@)[0] == parts@[0]@);
        proof {
            reveal_strlit("backend");
            reveal_strlit("circuit");
            reveal_strlit("proof");
            reveal_strlit("public");
            reveal_strlit("output");
            assert("backend"@[0] != "circuit"@[0]);
            assert("public"@[0] != "output"@[0]);
        }
        if parts.len() == 2 && eq_str(tag, "backend") {
            backend = Some(parts[1].clone());
        } else if parts.len() == 2 && eq_str(tag, "circuit") {
            circuit = Some(parts[1].clone());
        } else if parts.len() == 3 && eq_str(tag, "public") {
            let v = match parse_named_value(&parts[1], &parts[2]) {
                Ok(v) => v,
                Err(e) => {
                    proof {
                        lemma_first_bundle_error_prefix(all, i - 1);
                    }
                    return Err(e);
                },
            };
            public_inputs.push(v);
        } else if parts.len() == 3 && eq_str(tag, "output") {
            let v = match parse_named_value(&parts[1], &parts[2]) {
                Ok(v) => v,
                Err(e) => {
                    proof {
                        lemma_first_bundle_error_prefix(all, i - 1);
                    }
                    return Err(e);
                },
            };
            public_outputs.push(v);
        } else if parts.len() == 2 && eq_str(tag, "proof") {
            proof_hex = Some(parts[1].clone());
        } else {
            let mut message = to_owned("malformed groth16 proof artifact line `");
            push_str(&mut message, line.as_str());
            push_str(&mut message, "`");
            proof {
                lemma_first_bundle_error_prefix(all, i - 1);
            }
            return Err(RuntimeError::new(message));
        }
    }
    assert(all.subrange(0, i - 1) =~= all);
    let backend = match backend {
        Some(v) => v,
        None => {
            return Err(RuntimeError::new(to_owned("missing `backend` record")));
        },
    };
    let circuit = match circuit {
        Some(v) => v,
        None => {
            return Err(RuntimeError::new(to_owned("missing `circuit` record")));
        },
    };
    let proof_hex = match proof_hex {
        Some(v) => v,
        None => {
            return Err(RuntimeError::new(to_owned("missing `proof` record")));
        },
    };
    Ok(Groth16ProofBundle { backend, circuit, public_inputs, public_outputs, proof_hex })
}

// ----- checks before the pairing check --------------------------------------------------------

/// The bundle lists the circuit's public inputs and outputs, by name and in order.
pub open spec fn public_shape_matches(ir: CircuitIr, b: Groth16ProofBundle) -> bool {
    &&& b.public_inputs@.len() == ir.public_inputs@.len()
    &&& b.public_outputs@.len() == ir.outputs@.len()
    &&& forall|i: int| 0 <= i < b.public_inputs@.len() ==> (#[trigger] b.public_inputs@[i]).name@ == ir.public_inputs@[i].name@
    &&& forall|i: int| 0 <= i < b.public_outputs@.len() ==> (#[trigger] b.public_outputs@[i]).name@ == ir.outputs@[i].name@
}

/// Fails unless the bundle lists the circuit's public inputs and outputs by name and in order.
pub fn ensure_public_shape(ir: &CircuitIr, bundle: &Groth16ProofBundle) -> (r: RuntimeResult<()>)
    ensures
        r is Ok <==> public_shape_matches(*ir, *bundle),
{
    if bundle.public_inputs.len() != ir.public_inputs.len() {
        let mut message = to_owned("proof has ");
        push_decimal(&mut message, bundle.public_inputs.len() as u128);
        push_str(&mut message, " public inputs but circuit expects ");
        push_decimal(&mut message, ir.public_inputs.len() as u128);
        return Err(RuntimeError::new(message));
    }
    if bundle.public_outputs.len() != ir.outputs.len() {
        let mut message = to_owned("proof has ");
        push_decimal(&mut message, bundle.public_outputs.len() as u128);
        push_str(&mut message, " public outputs but circuit expects ");
        push_decimal(&mut message, ir.outputs.len() as u128);
        return Err(RuntimeError::new(message));
    }
    let mut i: usize = 0;
    while i < bundle.public_inputs.len()
        invariant
            i <= bundle.public_inputs@.len(),
            bundle.public_inputs@.len() == ir.public_inputs@.len(),
            forall|k: int| 0 <= k < i ==> (#[trigger] bundle.public_inputs@[k]).name@ == ir.public_inputs@[k].name@,
        decreases bundle.public_inputs.len() - i,
    {
        if !eq_str(bundle.public_inputs[i].name.as_str(), ir.public_inputs[i].name.as_str()) {
            let mut message = to_owned("proof public input `");
            push_str(&mut message, bundle.public_inputs[i].name.as_str());
            push_str(&mut message, "` does not match circuit input `");
            push_str(&mut message, ir.public_inputs[i].name.as_str());
            push_str(&mut message, "`");
            return Err(RuntimeError::new(message));
        }
        i = i + 1;
    }
    let mut j: usize = 0;
    while j < bundle.public_outputs.len()
        invariant
            j <= bundle.public_outputs@.len(),
            bundle.public_outputs@.len() == ir.outputs@.len(),
            forall|k: int| 0 <= k < j ==> (#[trigger] bundle.public_outputs@[k]).name@ == ir.outputs@[k].name@,
        decreases bundle.public_outputs.len() - j,
    {
        if !eq_str(bundle.public_outputs[j].name.as_str(), ir.outputs[j].name.as_str()) {
            let mut message = to_owned("proof public output `");
            push_str(&mut message, bundle.public_outputs[j].name.as_str());
            push_str(&mut message, "` does not match circuit output `");
            push_str(&mut message, ir.outputs[j].name.as_str());
            push_str(&mut message, "`");
            return Err(RuntimeError::new(message));
        }
        j = j + 1;
    }
    Ok(())
}

/// What the pairing check is run on: the proof bytes and the public values (inputs, then
/// outputs).
#[derive(Debug)]
pub struct Groth16Statement {
    pub proof_bytes: Vec<u8>,
    pub public_values: Vec<FieldElement>,
}

/// What Groth16 over BN254 decides of `proof` for `public_inputs` under the verification key
/// `vk` (both in arkworks' compressed encoding): `None` when the key or the proof does not
/// decode or the check reports an error, else whether the proof is accepted.
pub uninterp spec fn groth16_verdict(vk: Seq<u8>, public_inputs: Seq<nat>, proof: Seq<u8>) -> Option<bool>;

/// Whether arkworks' compressed decoding of a BN254 Groth16 verifying key succeeds on `vk`.
pub uninterp spec fn verifying_key_accepted(vk: Seq<u8>) -> bool;

/// ark-serialize's `VerifyingKey::<Bn254>::deserialize_compressed`, keeping only whether it
/// succeeded and the error's text. Claimed: success is `verifying_key_accepted` of the bytes (a
/// deterministic decoding); the error text is not stated.
#[verifier::external_body]
fn verifying_key_check(vk: &[u8]) -> (r: Result<(), String>)
    ensures
        r is Ok <==> verifying_key_accepted(vk@),
{
    match VerifyingKey::<Bn254>::deserialize_compressed(vk) {
        Ok(_) => Ok(()),
        Err(e) => Err(e.to_string()),
    }
}

/// Why the Groth16 check could not decide, with the arkworks error text.
#[derive(Debug, PartialEq, Eq)]
pub enum Groth16Failure {
    KeyEncoding(String),
    ProofEncoding(String),
    Check(String),
}

pub open spec fn field_values(values: Seq<FieldElement>) -> Seq<nat> {
    values.map_values(|v: FieldElement| v@)
}

/// ark-serialize's `VerifyingKey::<Bn254>::deserialize_compressed` and
/// `Proof::<Bn254>::deserialize_compressed`, then ark-groth16's `Groth16::<Bn254>::verify`.
/// Claimed: the outcome is `groth16_verdict` of the arguments (deterministic computation on the
/// bytes and values), a failure standing for `None`. Which stage failed, and the arkworks error
/// text, are not stated.
#[verifier::external_body]
fn groth16_check(vk: &[u8], public_inputs: &Vec<FieldElement>, proof: &[u8]) -> (r: Result<bool, Groth16Failure>)
    ensures
        r is Err <==> groth16_verdict(vk@, field_values(public_inputs@), proof@) is None,
        r matches Ok(b) ==> groth16_verdict(vk@, field_values(public_inputs@), proof@) == Some(b),
{
    let key = VerifyingKey::<Bn254>::deserialize_compressed(vk).map_err(|e| Groth16Failure::KeyEncoding(e.to_string()))?;
    let proof = Proof::<Bn254>::deserialize_compressed(proof).map_err(|e| Groth16Failure::ProofEncoding(e.to_string()))?;
    let inputs: Vec<Fr> = public_inputs.iter().map(|v| Fr::new(BigInt::new(v.limbs()))).collect();
    Groth16::<Bn254>::verify(&key, &inputs, &proof).map_err(|e| Groth16Failure::Check(e.to_string()))
}

/// The public values of a bundle, in the order the proof fixes them: the public inputs, then the
/// outputs.
pub open spec fn bundle_values(b: Groth16ProofBundle) -> Seq<nat> {
    field_values(b.public_inputs@.map_values(|v: NamedValue| v.value)) + field_values(
        b.public_outputs@.map_values(|v: NamedValue| v.value),
    )
}

/// A bundle's statement: its proof bytes, read from the hexadecimal text, and its public values
/// (inputs, then outputs).
pub open spec fn statement_of(bundle: Groth16ProofBundle, s: Groth16Statement) -> bool {
    &&& Some(s.proof_bytes@) == hex_decoded(vstd::utf8::encode_utf8(bundle.proof_hex@))
    &&& s.public_values@.len() == bundle.public_inputs@.len() + bundle.public_outputs@.len()
    &&& forall|i: int| 0 <= i < bundle.public_inputs@.len() ==> #[trigger] s.public_values@[i] == bundle.public_inputs@[i].value
    &&& forall|i: int| 0 <= i < bundle.public_outputs@.len()
        ==> #[trigger] s.public_values@[bundle.public_inputs@.len() + i] == bundle.public_outputs@[i].value
}

/// The bundle names the Groth16 backend and the circuit `ir`, and has its public shape.
pub open spec fn header_matches(ir: CircuitIr, bundle: Groth16ProofBundle) -> bool {
    &&& bundle.backend@ == GROTH16_BACKEND_NAME@
    &&& bundle.circuit@ == ir.name@
    &&& public_shape_matches(ir, bundle)
}

/// Verifies a Groth16 proof bundle for `ir` with the verification key `vk`: the backend and
/// circuit names and the public shape, then the key's decoding, then the proof's hexadecimal
/// text, then the pairing check on the bundle's public values.
pub fn verify_groth16(ir: &CircuitIr, vk: &[u8], bundle: &Groth16ProofBundle) -> (r: RuntimeResult<Groth16VerificationReport>)
    ensures
        r is Ok <==> {
            &&& header_matches(*ir, *bundle)
            &&& verifying_key_accepted(vk@)
            &&& hex_decoded(vstd::utf8::encode_utf8(bundle.proof_hex@)) is Some
            &&& groth16_verdict(vk@, bundle_values(*bundle), hex_decoded(vstd::utf8::encode_utf8(bundle.proof_hex@))->0) == Some(true)
        },
        bundle.backend@ != GROTH16_BACKEND_NAME@ ==> (r matches Err(e)
            && e.message@ == "unsupported proof backend `"@ + bundle.backend@ + "`"@),
        header_matches(*ir, *bundle) && !verifying_key_accepted(vk@) ==> (r matches Err(e)
            && "failed to deserialize verification key: "@.is_prefix_of(e.message@)),
        header_matches(*ir, *bundle) && verifying_key_accepted(vk@) && hex_decoded(vstd::utf8::encode_utf8(bundle.proof_hex@)) is None
            ==> (r matches Err(e) && e.message@ == hex_error_message(vstd::utf8::encode_utf8(bundle.proof_hex@))),
        ({
            &&& header_matches(*ir, *bundle)
            &&& verifying_key_accepted(vk@)
            &&& hex_decoded(vstd::utf8::encode_utf8(bundle.proof_hex@)) is Some
            &&& groth16_verdict(vk@, bundle_values(*bundle), hex_decoded(vstd::utf8::encode_utf8(bundle.proof_hex@))->0) == Some(false)
        }) ==> (r matches Err(e) && e.message@ == "groth16 proof verification failed"@),
        r matches Ok(report) ==> {
            &&& report.backend@ == bundle.backend@
            &&& report.circuit@ == bundle.circuit@
            &&& report.public_inputs == bundle.public_inputs@.len()
            &&& report.public_outputs == bundle.public_outputs@.len()
        },
{
    check_header(ir, bundle)?;
    match verifying_key_check(vk) {
        Ok(()) => {},
        Err(text) => {
            let mut message = to_owned("failed to deserialize verification key: ");
            push_str(&mut message, text.as_str());
            assert("failed to deserialize verification key: "@.is_prefix_of(message@)) by {
                assert(message@.subrange(0, "failed to deserialize verification key: "@.len() as int)
                    =~= "failed to deserialize verification key: "@);
            }
            return Err(RuntimeError::new(message));
        },
    }
    let statement = bundle_statement(bundle)?;
    proof {
        let n = bundle.public_inputs@.len();
        let left = field_values(bundle.public_inputs@.map_values(|v: NamedValue| v.value));
        let right = field_values(bundle.public_outputs@.map_values(|v: NamedValue| v.value));
        assert forall|k: int| 0 <= k < statement.public_values@.len() implies #[trigger] field_values(statement.public_values@)[k] == (left
            + right)[k] by {
            if k < n {
                assert(statement.public_values@[k] == bundle.public_inputs@[k].value);
            } else {
                assert(statement.public_values@[n + (k - n)] == bundle.public_outputs@[k - n].value);
            }
        }
        assert(field_values(statement.public_values@) =~= bundle_values(*bundle));
    }
    match groth16_check(vk, &statement.public_values, statement.proof_bytes.as_slice()) {
        Ok(true) => Ok(verification_report(bundle)),
        Ok(false) => Err(RuntimeError::new(to_owned("groth16 proof verification failed"))),
        Err(Groth16Failure::KeyEncoding(text)) => {
            let mut message = to_owned("failed to deserialize verification key: ");
            push_str(&mut message, text.as_str());
            Err(RuntimeError::new(message))
        },
        Err(Groth16Failure::ProofEncoding(text)) => {
            let mut message = to_owned("failed to deserialize proof: ");
            push_str(&mut message, text.as_str());
            Err(RuntimeError::new(message))
        },
        Err(Groth16Failure::Check(text)) => {
            let mut message = to_owned("groth16 verification failed: ");
            push_str(&mut message, text.as_str());
            Err(RuntimeError::new(message))
        },
    }
}

/// The checks made before a bundle reaches the pairing check: the backend and circuit names,
/// the public shape, and the proof's hexadecimal text.
pub fn prepare_verification(ir: &CircuitIr, bundle: &Groth16ProofBundle) -> (r: RuntimeResult<Groth16Statement>)
    ensures
        r is Ok <==> header_matches(*ir, *bundle) && hex_decoded(vstd::utf8::encode_utf8(bundle.proof_hex@)) is Some,
        bundle.backend@ != GROTH16_BACKEND_NAME@ ==> (r matches Err(e)
            && e.message@ == "unsupported proof backend `"@ + bundle.backend@ + "`"@),
        r matches Ok(s) ==> statement_of(*bundle, s),
{
    check_header(ir, bundle)?;
    bundle_statement(bundle)
}

/// The checks of a bundle's backend and circuit names and of its public shape.
fn check_header(ir: &CircuitIr, bundle: &Groth16ProofBundle) -> (r: RuntimeResult<()>)
    ensures
        r is Ok <==> header_matches(*ir, *bundle),
        bundle.backend@ != GROTH16_BACKEND_NAME@ ==> (r matches Err(e)
            && e.message@ == "unsupported proof backend `"@ + bundle.backend@ + "`"@),
{
    if !eq_str(bundle.backend.as_str(), GROTH16_BACKEND_NAME) {
        let mut message = to_owned("unsupported proof backend `");
        push_str(&mut message, bundle.backend.as_str());
        push_str(&mut message, "`");
        return Err(RuntimeError::new(message));
    }
    if !eq_str(bundle.circuit.as_str(), ir.name.as_str()) {
        let mut message = to_owned("proof targets circuit `");
        push_str(&mut message, bundle.circuit.as_str());
        push_str(&mut message, "` but expected `");
        push_str(&mut message, ir.name.as_str());
        push_str(&mut message, "`");
        return Err(RuntimeError::new(message));
    }
    ensure_public_shape(ir, bundle)
}

/// The proof bytes and public values of a bundle.
fn bundle_statement(bundle: &Groth16ProofBundle) -> (r: RuntimeResult<Groth16Statement>)
    ensures
        r is Ok <==> hex_decoded(vstd::utf8::encode_utf8(bundle.proof_hex@)) is Some,
        r matches Ok(s) ==> statement_of(*bundle, s),
        r matches Err(e) ==> e.message@ == hex_error_message(vstd::utf8::encode_utf8(bundle.proof_hex@)),
{
    let proof_bytes = hex_to_bytes(bundle.proof_hex.as_str())?;
    let mut public_values: Vec<FieldElement> = Vec::new();
    let mut i: usize = 0;
    while i < bundle.public_inputs.len()
        invariant
            i <= bundle.public_inputs@.len(),
            public_values@.len() == i,
            forall|k: int| 0 <= k < i ==> #[trigger] public_values@[k] == bundle.public_inputs@[k].value,
        decreases bundle.public_inputs.len() - i,
    {
        public_values.push(bundle.public_inputs[i].value);
        i = i + 1;
    }
    let mut j: usize = 0;
    while j < bundle.public_outputs.len()
        invariant
            j <= bundle.public_outputs@.len(),
            public_values@.len() == bundle.public_inputs@.len() + j,
            forall|k: int| 0 <= k < bundle.public_inputs@.len() ==> #[trigger] public_values@[k] == bundle.public_inputs@[k].value,
            forall|k: int| 0 <= k < j ==> #[trigger] public_values@[bundle.public_inputs@.len() + k] == bundle.public_outputs@[k].value,
        decreases bundle.public_outputs.len() - j,
    {
        public_values.push(bundle.public_outputs[j].value);
        j = j + 1;
    }
    Ok(Groth16Statement { proof_bytes, public_values })
}

/// The report of a bundle that passed the pairing check.
pub fn verification_report(bundle: &Groth16ProofBundle) -> (r: Groth16VerificationReport)
    ensures
        r.backend@ == bundle.backend@,
        r.circuit@ == bundle.circuit@,
        r.public_inputs == bundle.public_inputs@.len(),
        r.public_outputs == bundle.public_outputs@.len(),
{
    Groth16VerificationReport {
        backend: bundle.backend.clone(),
        circuit: bundle.circuit.clone(),
        public_inputs: bundle.public_inputs.len(),
        public_outputs: bundle.public_outputs.len(),
    }
}

/// The bundle of a proof made for `trace`: the trace's public inputs and outputs and the proof
/// bytes in hexadecimal.
pub fn bundle_from_trace(ir: &CircuitIr, trace: WitnessTrace, proof_bytes: &[u8]) -> (b: Groth16ProofBundle)
    ensures
        b.backend@ == GROTH16_BACKEND_NAME@,
        b.circuit@ == ir.name@,
        b.public_inputs@ == trace.public_inputs@,
        b.public_outputs@.len() == trace.outputs@.len(),
        forall|i: int| 0 <= i < b.public_outputs@.len() ==> (#[trigger] b.public_outputs@[i]).name@ == trace.outputs@[i].name@
            && b.public_outputs@[i].value == trace.outputs@[i].value,
        b.proof_hex@ == hex_text(proof_bytes@),
{
    let mut public_outputs: Vec<NamedValue> = Vec::new();
    let mut i: usize = 0;
    while i < trace.outputs.len()
        invariant
            i <= trace.outputs@.len(),
            public_outputs@.len() == i,
            forall|k: int| 0 <= k < i ==> (#[trigger] public_outputs@[k]).name@ == trace.outputs@[k].name@
                && public_outputs@[k].value == trace.outputs@[k].value,
        decreases trace.outputs.len() - i,
    {
        public_outputs.push(NamedValue { name: trace.outputs[i].name.clone(), value: trace.outputs[i].value });
        i = i + 1;
    }
    Groth16ProofBundle {
        backend: to_owned(GROTH16_BACKEND_NAME),
        circuit: ir.name.clone(),
        public_inputs: trace.public_inputs,
        public_outputs,
        proof_hex: bytes_to_hex(proof_bytes),
    }
}

// ----- the rank-one constraint plan -----------------------------------------------------------

/// A variable of the constraint system: the constant one, or the `k`-th allocated variable.
#[derive(Debug, Clone, Copy, PartialEq, Eq, Structural)]
pub enum Term {
    One,
    Var(usize),
}

/// An allocated variable: an instance (public) or a witness variable, with its value.
#[derive(Debug, Clone, Copy, PartialEq, Eq, Structural)]
pub enum Allocation {
    Instance(FieldElement),
    Witness(FieldElement),
}

/// A rank-one constraint `a * b = c` over linear combinations `sum(coefficient * term)`.
#[derive(Debug, PartialEq, Eq)]
pub struct R1csRow {
    pub a: Vec<(FieldElement, Term)>,
    pub b: Vec<(FieldElement, Term)>,
    pub c: Vec<(FieldElement, Term)>,
}

/// The variables to allocate, in order, and the constraints over them.
#[derive(Debug, PartialEq, Eq)]
pub struct R1csPlan {
    pub allocations: Vec<Allocation>,
    pub rows: Vec<R1csRow>,
}

/// Why a plan could not be made: an assignment the proof needs is missing.
#[derive(Debug, Clone, Copy, PartialEq, Eq, Structural)]
pub enum SynthesisFailure {
    AssignmentMissing,
}

/// The values a proof is made for, taken from a witness trace.
pub struct Groth16Assignments {
    pub public_inputs: Vec<(String, FieldElement)>,
    pub private_inputs: Vec<(String, FieldElement)>,
    pub wires: Vec<FieldElement>,
    pub outputs: Vec<(String, FieldElement)>,
}

/// The value of the last pair named `n` (later pairs replace earlier ones, as in a map).
pub open spec fn last_pair_value(pairs: Seq<(String, FieldElement)>, n: Seq<char>) -> Option<FieldElement>
    decreases pairs.len(),
{
    if pairs.len() == 0 {
        None
    } else if pairs.last().0@ == n {
        Some(pairs.last().1)
    } else {
        last_pair_value(pairs.drop_last(), n)
    }
}

/// The value of the first pair named `n`.
pub open spec fn first_pair_value(pairs: Seq<(String, FieldElement)>, n: Seq<char>) -> Option<FieldElement>
    decreases pairs.len(),
{
    if pairs.len() == 0 {
        None
    } else if pairs[0].0@ == n {
        Some(pairs[0].1)
    } else {
        first_pair_value(pairs.drop_first(), n)
    }
}

fn named_pairs(values: &Vec<NamedValue>) -> (r: Vec<(String, FieldElement)>)
    ensures
        r@.len() == values@.len(),
        forall|i: int| 0 <= i < r@.len() ==> (#[trigger] r@[i]).0@ == values@[i].name@ && r@[i].1 == values@[i].value,
{
    let mut out: Vec<(String, FieldElement)> = Vec::new();
    let mut i: usize = 0;
    while i < values.len()
        invariant
            i <= values@.len(),
            out@.len() == i,
            forall|k: int| 0 <= k < i ==> (#[trigger] out@[k]).0@ == values@[k].name@ && out@[k].1 == values@[k].value,
        decreases values.len() - i,
    {
        out.push((values[i].name.clone(), values[i].value));
        i = i + 1;
    }
    out
}

/// `a` holds the values recorded in `t`, in order: the named public and private inputs, the
/// wire values and the named outputs.
pub open spec fn assignments_from(t: WitnessTrace, a: Groth16Assignments) -> bool {
    &&& a.public_inputs@.len() == t.public_inputs@.len()
    &&& forall|i: int| 0 <= i < a.public_inputs@.len() ==> (#[trigger] a.public_inputs@[i]).0@ == t.public_inputs@[i].name@
        && a.public_inputs@[i].1 == t.public_inputs@[i].value
    &&& a.private_inputs@.len() == t.private_inputs@.len()
    &&& forall|i: int| 0 <= i < a.private_inputs@.len() ==> (#[trigger] a.private_inputs@[i]).0@ == t.private_inputs@[i].name@
        && a.private_inputs@[i].1 == t.private_inputs@[i].value
    &&& a.wires@.len() == t.wires@.len()
    &&& forall|i: int| 0 <= i < a.wires@.len() ==> #[trigger] a.wires@[i] == t.wires@[i].value
    &&& a.outputs@.len() == t.outputs@.len()
    &&& forall|i: int| 0 <= i < a.outputs@.len() ==> (#[trigger] a.outputs@[i]).0@ == t.outputs@[i].name@
        && a.outputs@[i].1 == t.outputs@[i].value
}

impl Groth16Assignments {
    /// The assignments recorded in a trace.
    pub fn from_trace(trace: &WitnessTrace) -> (r: Groth16Assignments)
        ensures
            assignments_from(*trace, r),
    {
        let mut wires: Vec<FieldElement> = Vec::new();
        let mut i: usize = 0;
        while i < trace.wires.len()
            invariant
                i <= trace.wires@.len(),
                wires@.len() == i,
                forall|k: int| 0 <= k < i ==> #[trigger] wires@[k] == trace.wires@[k].value,
            decreases trace.wires.len() - i,
        {
            wires.push(trace.wires[i].value);
            i = i + 1;
        }
        let mut outputs: Vec<(String, FieldElement)> = Vec::new();
        let mut j: usize = 0;
        while j < trace.outputs.len()
            invariant
                j <= trace.outputs@.len(),
                outputs@.len() == j,
                forall|k: int| 0 <= k < j ==> (#[trigger] outputs@[k]).0@ == trace.outputs@[k].name@
                    && outputs@[k].1 == trace.outputs@[k].value,
            decreases trace.outputs.len() - j,
        {
            outputs.push((trace.outputs[j].name.clone(), trace.outputs[j].value));
            j = j + 1;
        }
        Groth16Assignments {
            public_inputs: named_pairs(&trace.public_inputs),
            private_inputs: named_pairs(&trace.private_inputs),
            wires,
            outputs,
        }
    }
}

fn last_value_of(pairs: &Vec<(String, FieldElement)>, name: &str) -> (r: Option<FieldElement>)
    ensures
        r == last_pair_value(pairs@, name@),
{
    let mut i: usize = pairs.len();
    assert(pairs@.subrange(0, i as int) =~= pairs@);
    while i > 0
        invariant
            i <= pairs@.len(),
            forall|k: int| i <= k < pairs@.len() ==> (#[trigger] pairs@[k]).0@ != name@,
            last_pair_value(pairs@, name@) == last_pair_value(pairs@.subrange(0, i as int), name@),
        decreases i,
    {
        let ghost prefix = pairs@.subrange(0, i as int);
        assert(prefix.drop_last() =~= pairs@.subrange(0, i - 1));
        if eq_str(pairs[i - 1].0.as_str(), name) {
            return Some(pairs[i - 1].1);
        }
        i = i - 1;
    }
    None
}

fn first_value_of(pairs: &Vec<(String, FieldElement)>, name: &str) -> (r: Option<FieldElement>)
    ensures
        r == first_pair_value(pairs@, name@),
{
    let mut i: usize = 0;
    assert(pairs@.subrange(0, pairs@.len() as int) =~= pairs@);
    while i < pairs.len()
        invariant
            i <= pairs@.len(),
            first_pair_value(pairs@, name@) == first_pair_value(pairs@.subrange(i as int, pairs@.len() as int), name@),
        decreases pairs.len() - i,
    {
        let ghost rest = pairs@.subrange(i as int, pairs@.len() as int);
        assert(rest.drop_first() =~= pairs@.subrange(i + 1, pairs@.len() as int));
        if eq_str(pairs[i].0.as_str(), name) {
            return Some(pairs[i].1);
        }
        i = i + 1;
    }
    None
}

/// A linear combination with its coefficients taken by value.
pub open spec fn terms_view(t: Seq<(FieldElement, Term)>) -> Seq<(nat, Term)> {
    t.map_values(|p: (FieldElement, Term)| (p.0@, p.1))
}

pub open spec fn negated(t: Seq<(nat, Term)>) -> Seq<(nat, Term)> {
    t.map_values(|p: (nat, Term)| (crate::field::field_neg(p.0), p.1))
}

/// A row by value.
pub open spec fn row_view(r: R1csRow) -> (Seq<(nat, Term)>, Seq<(nat, Term)>, Seq<(nat, Term)>) {
    (terms_view(r.a@), terms_view(r.b@), terms_view(r.c@))
}

/// The linear combination of an operand; `None` when it reads a wire that has no variable.
pub open spec fn operand_terms(o: Operand, vars: Seq<Option<usize>>) -> Option<Seq<(nat, Term)>> {
    match o {
        Operand::Wire(w) => if w < vars.len() && vars[w as int] is Some {
            Some(seq![(1nat, Term::Var(vars[w as int]->0))])
        } else {
            None
        },
        Operand::Const(v) => if v@ == 0 {
            Some(Seq::empty())
        } else {
            Some(seq![(v@, Term::One)])
        },
    }
}

/// The row that defines an operation's result variable `out`.
pub open spec fn operation_row(kind: OpKind, out: usize, vars: Seq<Option<usize>>) -> Option<(Seq<(nat, Term)>, Seq<(nat, Term)>, Seq<(nat, Term)>)> {
    match (operand_terms(op_lhs(kind), vars), operand_terms(op_rhs(kind), vars)) {
        (Some(l), Some(r)) => Some(
            match kind {
                OpKind::Add(_, _) => (l + r, seq![(1nat, Term::One)], seq![(1nat, Term::Var(out))]),
                OpKind::Sub(_, _) => (l + negated(r), seq![(1nat, Term::One)], seq![(1nat, Term::Var(out))]),
                OpKind::Mul(_, _) => (l, r, seq![(1nat, Term::Var(out))]),
            },
        ),
        _ => None,
    }
}

/// The row that asserts a constraint: `(lhs - rhs) * 1 = 0`.
pub open spec fn equality_row(c: Constraint, vars: Seq<Option<usize>>) -> Option<(Seq<(nat, Term)>, Seq<(nat, Term)>, Seq<(nat, Term)>)> {
    match (operand_terms(c.lhs, vars), operand_terms(c.rhs, vars)) {
        (Some(l), Some(r)) => Some((l + negated(r), seq![(1nat, Term::One)], Seq::empty())),
        _ => None,
    }
}

fn operand_lc(operand: Operand, vars: &Vec<Option<usize>>) -> (r: Result<Vec<(FieldElement, Term)>, SynthesisFailure>)
    ensures
        r is Ok <==> operand_terms(operand, vars@) is Some,
        r matches Ok(terms) ==> Some(terms_view(terms@)) == operand_terms(operand, vars@),
{
    match operand {
        Operand::Wire(wire) => {
            if wire < vars.len() {
                match vars[wire] {
                    Some(var) => {
                        let terms = vec![(FieldElement::one(), Term::Var(var))];
                        assert(terms_view(terms@) =~= seq![(1nat, Term::Var(var))]);
                        Ok(terms)
                    },
                    None => Err(SynthesisFailure::AssignmentMissing),
                }
            } else {
                Err(SynthesisFailure::AssignmentMissing)
            }
        },
        Operand::Const(value) => {
            if value.is_zero() {
                let terms: Vec<(FieldElement, Term)> = Vec::new();
                assert(terms_view(terms@) =~= Seq::<(nat, Term)>::empty());
                Ok(terms)
            } else {
                let terms = vec![(value, Term::One)];
                assert(terms_view(terms@) =~= seq![(value@, Term::One)]);
                Ok(terms)
            }
        },
    }
}

fn one_term(term: Term) -> (r: Vec<(FieldElement, Term)>)
    ensures
        terms_view(r@) == seq![(1nat, term)],
{
    let r = vec![(FieldElement::one(), term)];
    assert(terms_view(r@) =~= seq![(1nat, term)]);
    r
}

/// `lhs` followed by `rhs` with every coefficient negated.
fn minus(lhs: Vec<(FieldElement, Term)>, rhs: &Vec<(FieldElement, Term)>) -> (r: Vec<(FieldElement, Term)>)
    ensures
        terms_view(r@) == terms_view(lhs@) + negated(terms_view(rhs@)),
{
    let mut out = lhs;
    let ghost start = out@;
    let mut i: usize = 0;
    while i < rhs.len()
        invariant
            i <= rhs@.len(),
            terms_view(out@) == terms_view(start) + negated(terms_view(rhs@.subrange(0, i as int))),
        decreases rhs.len() - i,
    {
        let (coefficient, term) = rhs[i];
        let ghost before = out@;
        let negated_coefficient = coefficient.neg();
        out.push((negated_coefficient, term));
        proof {
            assert(terms_view(out@) =~= terms_view(before).push((negated_coefficient@, term)));
            assert(terms_view(rhs@.subrange(0, i + 1)) =~= terms_view(rhs@.subrange(0, i as int)).push((coefficient@, term)));
            assert(negated(terms_view(rhs@.subrange(0, i + 1))) =~= negated(terms_view(rhs@.subrange(0, i as int))).push(
                (crate::field::field_neg(coefficient@), term),
            ));
        }
        assert(terms_view(out@) =~= terms_view(start) + negated(terms_view(rhs@.subrange(0, i + 1))));
        i = i + 1;
    }
    assert(rhs@.subrange(0, i as int) =~= rhs@);
    out
}

fn plus(lhs: Vec<(FieldElement, Term)>, rhs: &Vec<(FieldElement, Term)>) -> (r: Vec<(FieldElement, Term)>)
    ensures
        terms_view(r@) == terms_view(lhs@) + terms_view(rhs@),
{
    let mut out = lhs;
    let ghost start = out@;
    let mut i: usize = 0;
    while i < rhs.len()
        invariant
            i <= rhs@.len(),
            terms_view(out@) == terms_view(start) + terms_view(rhs@.subrange(0, i as int)),
        decreases rhs.len() - i,
    {
        let ghost before = out@;
        out.push(rhs[i]);
        proof {
            assert(terms_view(out@) =~= terms_view(before).push((rhs@[i as int].0@, rhs@[i as int].1)));
            assert(terms_view(rhs@.subrange(0, i + 1)) =~= terms_view(rhs@.subrange(0, i as int)).push(
                (rhs@[i as int].0@, rhs@[i as int].1),
            ));
        }
        assert(terms_view(out@) =~= terms_view(start) + terms_view(rhs@.subrange(0, i + 1)));
        i = i + 1;
    }
    assert(rhs@.subrange(0, i as int) =~= rhs@);
    out
}

fn enforce_operation(operation: &Operation, out: usize, vars: &Vec<Option<usize>>) -> (r: Result<R1csRow, SynthesisFailure>)
    ensures
        r is Ok <==> operation_row(operation.kind, out, vars@) is Some,
        r matches Ok(row) ==> Some(row_view(row)) == operation_row(operation.kind, out, vars@),
{
    let (lhs, rhs) = match operation.kind {
        OpKind::Add(lhs, rhs) => (lhs, rhs),
        OpKind::Sub(lhs, rhs) => (lhs, rhs),
        OpKind::Mul(lhs, rhs) => (lhs, rhs),
    };
    let l = operand_lc(lhs, vars)?;
    let r = operand_lc(rhs, vars)?;
    match operation.kind {
        OpKind::Add(_, _) => Ok(R1csRow { a: plus(l, &r), b: one_term(Term::One), c: one_term(Term::Var(out)) }),
        OpKind::Sub(_, _) => Ok(R1csRow { a: minus(l, &r), b: one_term(Term::One), c: one_term(Term::Var(out)) }),
        OpKind::Mul(_, _) => Ok(R1csRow { a: l, b: r, c: one_term(Term::Var(out)) }),
    }
}

fn enforce_equality(constraint: &Constraint, vars: &Vec<Option<usize>>) -> (r: Result<R1csRow, SynthesisFailure>)
    ensures
        r is Ok <==> equality_row(*constraint, vars@) is Some,
        r matches Ok(row) ==> Some(row_view(row)) == equality_row(*constraint, vars@),
{
    let l = operand_lc(constraint.lhs, vars)?;
    let r = operand_lc(constraint.rhs, vars)?;
    let c: Vec<(FieldElement, Term)> = Vec::new();
    assert(terms_view(c@) =~= Seq::<(nat, Term)>::empty());
    Ok(R1csRow { a: minus(l, &r), b: one_term(Term::One), c })
}

/// Whether bit `i` (`i < 64`) of `v` is set.
pub open spec fn value_bit(v: nat, i: nat) -> bool {
    (((v % 0x1_0000_0000_0000_0000nat) as u64) >> (i as u64)) & 1u64 == 1u64
}

fn field_bit(v: &FieldElement, i: u8) -> (r: bool)
    requires
        i < 64,
    ensures
        r == value_bit(v@, i as nat),
{
    let limbs = v.limbs();
    proof {
        let b: int = 0x1_0000_0000_0000_0000int;
        let (x0, x1, x2, x3) = (limbs[0] as int, limbs[1] as int, limbs[2] as int, limbs[3] as int);
        assert(x0 + x1 * b + x2 * (b * b) + x3 * (b * b * b) == (x1 + x2 * b + x3 * b * b) * b + x0) by (nonlinear_arith);
        assert(b * b == 0x1_0000_0000_0000_0000_0000_0000_0000_0000int);
        assert(b * b * b == 0x1_0000_0000_0000_0000_0000_0000_0000_0000_0000_0000_0000_0000int);
        vstd::arithmetic::div_mod::lemma_fundamental_div_mod_converse(
            limbs_value(limbs[0], limbs[1], limbs[2], limbs[3]) as int,
            b,
            x1 + x2 * b + x3 * b * b,
            x0,
        );
    }
    (limbs[0] >> (i as u64)) & 1u64 == 1u64
}

/// An allocation by value: whether it is an instance variable, and its value.
pub open spec fn alloc_view(a: Allocation) -> (bool, nat) {
    match a {
        Allocation::Instance(v) => (true, v@),
        Allocation::Witness(v) => (false, v@),
    }
}

pub open spec fn allocs_view(s: Seq<Allocation>) -> Seq<(bool, nat)> {
    s.map_values(|a: Allocation| alloc_view(a))
}

pub open spec fn rows_view(s: Seq<R1csRow>) -> Seq<(Seq<(nat, Term)>, Seq<(nat, Term)>, Seq<(nat, Term)>)> {
    s.map_values(|r: R1csRow| row_view(r))
}

/// How many bit variables a range constraint needs: its type's width, or none for a field or
/// boolean type or a constant known to fit.
pub open spec fn range_bits_needed(range: RangeConstraint) -> nat {
    match type_bits(range.ty) {
        None => 0,
        Some(b) => if (range.value matches Operand::Const(c) && fits_bits(c@, b as nat)) {
            0
        } else {
            b as nat
        },
    }
}

/// The value a range constraint's bits are taken from: the assigned wire, the constant, or zero
/// without assignments; `None` when the assignments lack the wire.
pub open spec fn range_assigned(range: RangeConstraint, assignments: Option<&Groth16Assignments>) -> Option<nat> {
    match (assignments, range.value) {
        (Some(a), Operand::Wire(w)) => if w < a.wires@.len() {
            Some(a.wires@[w as int]@)
        } else {
            None
        },
        (_, Operand::Const(v)) => Some(v@),
        (None, Operand::Wire(_)) => Some(0),
    }
}

/// The bit variables of a range constraint on `v`: witnesses holding its low `bits` bits.
pub open spec fn bit_allocs(v: nat, bits: nat) -> Seq<(bool, nat)> {
    Seq::new(bits, |i: int| (false, if value_bit(v, i as nat) { 1nat } else { 0nat }))
}

/// The rows of a range constraint whose bit variables start at `start`: `bit * (1 - bit) = 0`
/// for each bit, then `(sum(2^i * bit_i) - value) * 1 = 0`.
pub open spec fn range_rows(start: nat, bits: nat, value: Seq<(nat, Term)>) -> Seq<(Seq<(nat, Term)>, Seq<(nat, Term)>, Seq<(nat, Term)>)> {
    Seq::new(
        bits,
        |i: int|
            (
                seq![(1nat, Term::Var((start + i) as usize))],
                seq![(1nat, Term::One), (crate::field::field_neg(1), Term::Var((start + i) as usize))],
                Seq::<(nat, Term)>::empty(),
            ),
    ).push(
        (
            Seq::new(bits, |i: int| (vstd::arithmetic::power2::pow2(i as nat), Term::Var((start + i) as usize))) + negated(value),
            seq![(1nat, Term::One)],
            Seq::<(nat, Term)>::empty(),
        ),
    )
}

/// The rows (and bit variables) that bound a range-constrained value to `bits` bits: each bit
/// variable `v` gets `v * (1 - v) = 0`, and `(sum(2^i * bit_i) - value) * 1 = 0`.
#[verifier::rlimit(30)]
fn enforce_range(
    range: &RangeConstraint,
    vars: &Vec<Option<usize>>,
    assignments: Option<&Groth16Assignments>,
    allocations: &mut Vec<Allocation>,
    rows: &mut Vec<R1csRow>,
) -> (r: Result<(), SynthesisFailure>)
    ensures
        range_bits_needed(*range) == 0 ==> r is Ok && final(allocations)@ == old(allocations)@ && final(rows)@ == old(rows)@,
        range_bits_needed(*range) > 0 ==> (r is Ok <==> operand_terms(range.value, vars@) is Some && range_assigned(*range, assignments) is Some),
        range_bits_needed(*range) > 0 && r is Ok ==> {
            &&& allocs_view(final(allocations)@) == allocs_view(old(allocations)@) + bit_allocs(
                range_assigned(*range, assignments)->0,
                range_bits_needed(*range),
            )
            &&& rows_view(final(rows)@) == rows_view(old(rows)@) + range_rows(
                old(allocations)@.len(),
                range_bits_needed(*range),
                operand_terms(range.value, vars@)->0,
            )
        },
{
    let bits: u8 = match range.ty.uint_bits() {
        Some(b) => b,
        None => {
            return Ok(());
        },
    };
    if let Operand::Const(value) = range.value {
        if value.fits_in_bits(bits) {
            return Ok(());
        }
    }
    assert(range_bits_needed(*range) == bits);
    let value_lc = operand_lc(range.value, vars)?;
    let assigned: FieldElement = match (assignments, range.value) {
        (Some(a), Operand::Wire(wire)) => {
            if wire < a.wires.len() {
                a.wires[wire]
            } else {
                return Err(SynthesisFailure::AssignmentMissing);
            }
        },
        (_, Operand::Const(value)) => value,
        (None, Operand::Wire(_)) => FieldElement::zero(),
    };
    assert(Some(assigned@) == range_assigned(*range, assignments));
    let ghost start = allocations@.len();
    let ghost old_allocs = allocs_view(allocations@);
    let ghost old_rows = rows_view(rows@);
    let mut recomposed: Vec<(FieldElement, Term)> = Vec::new();
    let mut weight: u128 = 1;
    let mut bit_index: u8 = 0;
    proof {
        vstd::arithmetic::power2::lemma2_to64();
        assert(allocs_view(allocations@) =~= old_allocs + bit_allocs(assigned@, 0));
        assert(rows_view(rows@) =~= old_rows + range_rows(start, 0, terms_view(value_lc@)).drop_last());
        assert(terms_view(recomposed@) =~= Seq::new(0, |i: int| (vstd::arithmetic::power2::pow2(i as nat), Term::Var((start + i) as usize))));
    }
    while bit_index < bits
        invariant
            bits <= 32,
            bit_index <= bits,
            weight <= 0x1_0000_0000u128,
            weight == vstd::arithmetic::power2::pow2(bit_index as nat),
            allocations@.len() == start + bit_index,
            allocs_view(allocations@) == old_allocs + bit_allocs(assigned@, bit_index as nat),
            rows_view(rows@) == old_rows + range_rows(start, bit_index as nat, terms_view(value_lc@)).drop_last(),
            terms_view(recomposed@) == Seq::new(
                bit_index as nat,
                |i: int| (vstd::arithmetic::power2::pow2(i as nat), Term::Var((start + i) as usize)),
            ),
        decreases bits - bit_index,
    {
        let bit_value = if field_bit(&assigned, bit_index) {
            FieldElement::one()
        } else {
            FieldElement::zero()
        };
        let variable = allocations.len();
        let ghost allocs_before = allocations@;
        let ghost rows_before = rows@;
        let ghost rec_before = recomposed@;
        allocations.push(Allocation::Witness(bit_value));
        let mut b = one_term(Term::One);
        let ghost b0 = b@;
        let neg_one = FieldElement::one().neg();
        b.push((neg_one, Term::Var(variable)));
        assert(terms_view(b@) =~= terms_view(b0).push((neg_one@, Term::Var(variable))));
        let c: Vec<(FieldElement, Term)> = Vec::new();
        let row = R1csRow { a: one_term(Term::Var(variable)), b, c };
        proof {
            assert(terms_view(row.b@) =~= seq![(1nat, Term::One), (crate::field::field_neg(1), Term::Var(variable))]);
            assert(terms_view(row.c@) =~= Seq::<(nat, Term)>::empty());
        }
        rows.push(row);
        let w = FieldElement::from_u128(weight);
        recomposed.push((w, Term::Var(variable)));
        proof {
            let n = (bit_index + 1) as nat;
            assert(allocs_view(allocations@) =~= allocs_view(allocs_before).push(alloc_view(Allocation::Witness(bit_value))));
            assert(old_allocs + bit_allocs(assigned@, n) =~= (old_allocs + bit_allocs(assigned@, bit_index as nat)).push(
                (false, if value_bit(assigned@, bit_index as nat) { 1nat } else { 0nat }),
            ));
            assert(rows_view(rows@) =~= rows_view(rows_before).push(row_view(row)));
            assert(range_rows(start, n, terms_view(value_lc@)).drop_last() =~= range_rows(start, bit_index as nat, terms_view(value_lc@)).drop_last().push(
                row_view(row),
            ));
            assert(terms_view(recomposed@) =~= terms_view(rec_before).push((weight as nat, Term::Var(variable))));
            assert(Seq::new(n, |i: int| (vstd::arithmetic::power2::pow2(i as nat), Term::Var((start + i) as usize))) =~= Seq::new(
                bit_index as nat,
                |i: int| (vstd::arithmetic::power2::pow2(i as nat), Term::Var((start + i) as usize)),
            ).push((weight as nat, Term::Var(variable))));
            vstd::arithmetic::power2::lemma_pow2_unfold((bit_index + 1) as nat);
            vstd::arithmetic::power2::lemma_pow2_strictly_increases(bit_index as nat, 32);
            vstd::arithmetic::power2::lemma2_to64();
        }
        weight = weight * 2;
        bit_index = bit_index + 1;
    }
    let c: Vec<(FieldElement, Term)> = Vec::new();
    let last = R1csRow { a: minus(recomposed, &value_lc), b: one_term(Term::One), c };
    let ghost rows_before = rows@;
    proof {
        assert(terms_view(last.c@) =~= Seq::<(nat, Term)>::empty());
    }
    rows.push(last);
    proof {
        assert(rows_view(rows@) =~= rows_view(rows_before).push(row_view(last)));
        let full = range_rows(start, bits as nat, terms_view(value_lc@));
        assert(full.drop_last().push(full.last()) =~= full);
        assert(old_rows + full =~= (old_rows + full.drop_last()).push(full.last()));
    }
    Ok(())
}

// ----- the plan, by value ---------------------------------------------------------------------

/// The variable of each wire once `inputs` are allocated, the `n`-th as variable `base + n`.
pub open spec fn assign_vars(inputs: Seq<NamedInput>, base: nat, vars: Seq<Option<usize>>) -> Seq<Option<usize>>
    decreases inputs.len(),
{
    if inputs.len() == 0 {
        vars
    } else {
        let n = inputs.len() - 1;
        assign_vars(inputs.drop_last(), base, vars).update(inputs[n].wire as int, Some((base + n) as usize))
    }
}

/// The variable of each wire once the inputs are allocated.
pub open spec fn input_vars(ir: CircuitIr) -> Seq<Option<usize>> {
    let none = Seq::new(ir.next_wire as nat, |i: int| None::<usize>);
    assign_vars(ir.private_inputs@, ir.public_inputs@.len(), assign_vars(ir.public_inputs@, 0, none))
}

/// The variable of each wire once the inputs and the first `k` operation results are allocated.
pub open spec fn op_vars(ir: CircuitIr, k: nat) -> Seq<Option<usize>>
    decreases k,
{
    if k == 0 {
        input_vars(ir)
    } else {
        let ni = ir.public_inputs@.len() + ir.private_inputs@.len();
        op_vars(ir, (k - 1) as nat).update(ir.operations@[k - 1].out as int, Some((ni + k - 1) as usize))
    }
}

/// The variable of each wire once everything is allocated.
pub open spec fn wire_vars(ir: CircuitIr) -> Seq<Option<usize>> {
    op_vars(ir, ir.operations@.len())
}

pub open spec fn public_value(a: Option<&Groth16Assignments>, name: Seq<char>) -> Option<nat> {
    match a {
        None => Some(0),
        Some(x) => match last_pair_value(x.public_inputs@, name) {
            Some(v) => Some(v@),
            None => None,
        },
    }
}

pub open spec fn private_value(a: Option<&Groth16Assignments>, name: Seq<char>) -> Option<nat> {
    match a {
        None => Some(0),
        Some(x) => match last_pair_value(x.private_inputs@, name) {
            Some(v) => Some(v@),
            None => None,
        },
    }
}

pub open spec fn wire_value(a: Option<&Groth16Assignments>, w: usize) -> Option<nat> {
    match a {
        None => Some(0),
        Some(x) => if w < x.wires@.len() {
            Some(x.wires@[w as int]@)
        } else {
            None
        },
    }
}

pub open spec fn output_value(a: Option<&Groth16Assignments>, name: Seq<char>) -> Option<nat> {
    match a {
        None => Some(0),
        Some(x) => match first_pair_value(x.outputs@, name) {
            Some(v) => Some(v@),
            None => None,
        },
    }
}

/// The bit variables of the first `g` range constraints.
pub open spec fn range_allocs(ranges: Seq<RangeConstraint>, a: Option<&Groth16Assignments>, g: nat) -> Seq<(bool, nat)>
    decreases g,
{
    if g == 0 {
        Seq::empty()
    } else {
        let r = ranges[g - 1];
        range_allocs(ranges, a, (g - 1) as nat) + if range_bits_needed(r) == 0 {
            Seq::empty()
        } else {
            bit_allocs(range_assigned(r, a)->0, range_bits_needed(r))
        }
    }
}

/// The rows of the first `g` range constraints, whose bit variables start at `base`.
pub open spec fn range_rows_all(ranges: Seq<RangeConstraint>, a: Option<&Groth16Assignments>, vars: Seq<Option<usize>>, base: nat, g: nat) -> Seq<
    (Seq<(nat, Term)>, Seq<(nat, Term)>, Seq<(nat, Term)>),
>
    decreases g,
{
    if g == 0 {
        Seq::empty()
    } else {
        let r = ranges[g - 1];
        range_rows_all(ranges, a, vars, base, (g - 1) as nat) + if range_bits_needed(r) == 0 {
            Seq::empty()
        } else {
            range_rows(base + range_allocs(ranges, a, (g - 1) as nat).len(), range_bits_needed(r), operand_terms(r.value, vars)->0)
        }
    }
}

/// The plan can be made: every assignment it needs is there, and every operand it reads has a
/// variable.
pub open spec fn plan_feasible(ir: CircuitIr, a: Option<&Groth16Assignments>) -> bool {
    let ni = ir.public_inputs@.len() + ir.private_inputs@.len();
    &&& forall|i: int| 0 <= i < ir.public_inputs@.len() ==> #[trigger] public_value(a, ir.public_inputs@[i].name@) is Some
    &&& forall|j: int| 0 <= j < ir.private_inputs@.len() ==> #[trigger] private_value(a, ir.private_inputs@[j].name@) is Some
    &&& forall|k: int| 0 <= k < ir.operations@.len() ==> #[trigger] wire_value(a, ir.operations@[k].out) is Some
        && operation_row(ir.operations@[k].kind, (ni + k) as usize, op_vars(ir, (k + 1) as nat)) is Some
    &&& forall|c: int| 0 <= c < ir.constraints@.len() ==> #[trigger] equality_row(ir.constraints@[c], wire_vars(ir)) is Some
    &&& forall|g: int| 0 <= g < ir.range_constraints@.len() && range_bits_needed(#[trigger] ir.range_constraints@[g]) > 0
        ==> operand_terms(ir.range_constraints@[g].value, wire_vars(ir)) is Some && range_assigned(ir.range_constraints@[g], a) is Some
    &&& forall|o: int| 0 <= o < ir.outputs@.len() ==> #[trigger] output_value(a, ir.outputs@[o].name@) is Some
        && operand_terms(ir.outputs@[o].value, wire_vars(ir)) is Some
}

/// The variables of the plan, by value: an instance per public input, a witness per private
/// input and per operation, the bit witnesses of the range constraints, an instance per output.
pub open spec fn plan_allocs(ir: CircuitIr, a: Option<&Groth16Assignments>) -> Seq<(bool, nat)> {
    Seq::new(ir.public_inputs@.len(), |i: int| (true, public_value(a, ir.public_inputs@[i].name@)->0))
        + Seq::new(ir.private_inputs@.len(), |j: int| (false, private_value(a, ir.private_inputs@[j].name@)->0))
        + Seq::new(ir.operations@.len(), |k: int| (false, wire_value(a, ir.operations@[k].out)->0))
        + range_allocs(ir.range_constraints@, a, ir.range_constraints@.len())
        + Seq::new(ir.outputs@.len(), |o: int| (true, output_value(a, ir.outputs@[o].name@)->0))
}

/// The first instance variable of the outputs.
pub open spec fn output_base(ir: CircuitIr, a: Option<&Groth16Assignments>) -> nat {
    ir.public_inputs@.len() + ir.private_inputs@.len() + ir.operations@.len() + range_allocs(
        ir.range_constraints@,
        a,
        ir.range_constraints@.len(),
    ).len()
}

/// The rows of the plan, by value: a defining row per operation, an asserting row per
/// constraint, the rows of the range constraints, and a row per output tying it to its instance.
pub open spec fn plan_rows(ir: CircuitIr, a: Option<&Groth16Assignments>) -> Seq<(Seq<(nat, Term)>, Seq<(nat, Term)>, Seq<(nat, Term)>)> {
    let ni = ir.public_inputs@.len() + ir.private_inputs@.len();
    Seq::new(
        ir.operations@.len(),
        |k: int| operation_row(ir.operations@[k].kind, (ni + k) as usize, op_vars(ir, (k + 1) as nat))->0,
    ) + Seq::new(ir.constraints@.len(), |c: int| equality_row(ir.constraints@[c], wire_vars(ir))->0) + range_rows_all(
        ir.range_constraints@,
        a,
        wire_vars(ir),
        ni + ir.operations@.len(),
        ir.range_constraints@.len(),
    ) + Seq::new(
        ir.outputs@.len(),
        |o: int|
            (
                operand_terms(ir.outputs@[o].value, wire_vars(ir))->0,
                seq![(1nat, Term::One)],
                seq![(1nat, Term::Var((output_base(ir, a) + o) as usize))],
            ),
    )
}

/// The variables and rows of `ir`'s rank-one constraint system, with the values of
/// `assignments` (all zero without them).
///
/// In order: an instance variable per public input, a witness per private input, a witness and
/// a defining row per operation, an asserting row per constraint, bit witnesses and rows per
/// range constraint on a value not known to fit, and an instance variable and a row per output.
/// Fails when an assignment is missing or an operand reads a wire with no variable.
pub fn plan_circuit(ir: &CircuitIr, assignments: Option<&Groth16Assignments>) -> (r: Result<R1csPlan, SynthesisFailure>)
    requires
        writes_in_range(*ir),
    ensures
        r is Ok <==> plan_feasible(*ir, assignments),
        r matches Ok(plan) ==> allocs_view(plan.allocations@) == plan_allocs(*ir, assignments) && rows_view(plan.rows@) == plan_rows(
            *ir,
            assignments,
        ),
{
    let ghost a = assignments;
    let np = ir.public_inputs.len();
    let nq = ir.private_inputs.len();
    let mut vars: Vec<Option<usize>> = Vec::new();
    let mut z: usize = 0;
    while z < ir.next_wire
        invariant
            a == assignments,
            z <= ir.next_wire,
            vars@ == Seq::new(z as nat, |i: int| None::<usize>),
        decreases ir.next_wire - z,
    {
        vars.push(None);
        assert(vars@ =~= Seq::new((z + 1) as nat, |i: int| None::<usize>));
        z = z + 1;
    }
    let ghost none = vars@;
    let mut allocations: Vec<Allocation> = Vec::new();
    let mut rows: Vec<R1csRow> = Vec::new();
    let mut i: usize = 0;
    assert(ir.public_inputs@.subrange(0, 0) =~= Seq::<NamedInput>::empty());
    while i < np
        invariant
            a == assignments,
            writes_in_range(*ir),
            np == ir.public_inputs@.len(),
            i <= np,
            none == Seq::new(ir.next_wire as nat, |x: int| None::<usize>),
            vars@ == assign_vars(ir.public_inputs@.subrange(0, i as int), 0, none),
            vars@.len() == ir.next_wire,
            allocs_view(allocations@) == Seq::new(i as nat, |x: int| (true, public_value(a, ir.public_inputs@[x].name@)->0)),
            rows@.len() == 0,
            forall|x: int| 0 <= x < i ==> #[trigger] public_value(a, ir.public_inputs@[x].name@) is Some,
        decreases np - i,
    {
        let input = &ir.public_inputs[i];
        let value = match assignments {
            Some(asg) => match last_value_of(&asg.public_inputs, input.name.as_str()) {
                Some(v) => v,
                None => {
                    assert(public_value(a, ir.public_inputs@[i as int].name@) is None);
                    return Err(SynthesisFailure::AssignmentMissing);
                },
            },
            None => FieldElement::zero(),
        };
        assert(public_value(a, ir.public_inputs@[i as int].name@) == Some(value@));
        let variable = allocations.len();
        let ghost before = allocations@;
        allocations.push(Allocation::Instance(value));
        vars.set(input.wire, Some(variable));
        proof {
            let sub = ir.public_inputs@.subrange(0, i + 1);
            assert(sub.drop_last() =~= ir.public_inputs@.subrange(0, i as int));
            assert(sub[i as int] == ir.public_inputs@[i as int]);
            assert(allocs_view(allocations@) =~= allocs_view(before).push((true, value@)));
            assert(allocs_view(allocations@) =~= Seq::new((i + 1) as nat, |x: int| (true, public_value(a, ir.public_inputs@[x].name@)->0)));
        }
        i = i + 1;
    }
    assert(ir.public_inputs@.subrange(0, np as int) =~= ir.public_inputs@);
    let ghost after_public = vars@;
    let mut j: usize = 0;
    assert(ir.private_inputs@.subrange(0, 0) =~= Seq::<NamedInput>::empty());
    while j < nq
        invariant
            a == assignments,
            writes_in_range(*ir),
            np == ir.public_inputs@.len(),
            nq == ir.private_inputs@.len(),
            j <= nq,
            after_public == assign_vars(ir.public_inputs@, 0, none),
            none == Seq::new(ir.next_wire as nat, |x: int| None::<usize>),
            vars@ == assign_vars(ir.private_inputs@.subrange(0, j as int), np as nat, after_public),
            vars@.len() == ir.next_wire,
            allocs_view(allocations@) == Seq::new(np as nat, |x: int| (true, public_value(a, ir.public_inputs@[x].name@)->0)) + Seq::new(
                j as nat,
                |x: int| (false, private_value(a, ir.private_inputs@[x].name@)->0),
            ),
            rows@.len() == 0,
            forall|x: int| 0 <= x < np ==> #[trigger] public_value(a, ir.public_inputs@[x].name@) is Some,
            forall|x: int| 0 <= x < j ==> #[trigger] private_value(a, ir.private_inputs@[x].name@) is Some,
        decreases nq - j,
    {
        let input = &ir.private_inputs[j];
        let value = match assignments {
            Some(asg) => match last_value_of(&asg.private_inputs, input.name.as_str()) {
                Some(v) => v,
                None => {
                    assert(private_value(a, ir.private_inputs@[j as int].name@) is None);
                    return Err(SynthesisFailure::AssignmentMissing);
                },
            },
            None => FieldElement::zero(),
        };
        assert(private_value(a, ir.private_inputs@[j as int].name@) == Some(value@));
        let variable = allocations.len();
        let ghost before = allocations@;
        allocations.push(Allocation::Witness(value));
        vars.set(input.wire, Some(variable));
        proof {
            let sub = ir.private_inputs@.subrange(0, j + 1);
            assert(sub.drop_last() =~= ir.private_inputs@.subrange(0, j as int));
            assert(sub[j as int] == ir.private_inputs@[j as int]);
            assert(allocs_view(allocations@) =~= allocs_view(before).push((false, value@)));
            assert(allocs_view(allocations@) =~= Seq::new(np as nat, |x: int| (true, public_value(a, ir.public_inputs@[x].name@)->0))
                + Seq::new((j + 1) as nat, |x: int| (false, private_value(a, ir.private_inputs@[x].name@)->0)));
        }
        j = j + 1;
    }
    assert(ir.private_inputs@.subrange(0, nq as int) =~= ir.private_inputs@);
    assert(vars@ == input_vars(*ir));
    let ghost ni: nat = (np + nq) as nat;
    let ghost input_allocs = allocs_view(allocations@);
    let mut k: usize = 0;
    while k < ir.operations.len()
        invariant
            a == assignments,
            writes_in_range(*ir),
            np == ir.public_inputs@.len(),
            nq == ir.private_inputs@.len(),
            ni == np + nq,
            k <= ir.operations@.len(),
            vars@ == op_vars(*ir, k as nat),
            vars@.len() == ir.next_wire,
            allocations@.len() == ni + k,
            input_allocs == Seq::new(np as nat, |x: int| (true, public_value(a, ir.public_inputs@[x].name@)->0)) + Seq::new(
                nq as nat,
                |x: int| (false, private_value(a, ir.private_inputs@[x].name@)->0),
            ),
            allocs_view(allocations@) == input_allocs + Seq::new(k as nat, |x: int| (false, wire_value(a, ir.operations@[x].out)->0)),
            rows_view(rows@) == Seq::new(
                k as nat,
                |x: int| operation_row(ir.operations@[x].kind, (ni + x) as usize, op_vars(*ir, (x + 1) as nat))->0,
            ),
            forall|x: int| 0 <= x < np ==> #[trigger] public_value(a, ir.public_inputs@[x].name@) is Some,
            forall|x: int| 0 <= x < nq ==> #[trigger] private_value(a, ir.private_inputs@[x].name@) is Some,
            forall|x: int| 0 <= x < k ==> #[trigger] wire_value(a, ir.operations@[x].out) is Some
                && operation_row(ir.operations@[x].kind, (ni + x) as usize, op_vars(*ir, (x + 1) as nat)) is Some,
        decreases ir.operations.len() - k,
    {
        let operation = &ir.operations[k];
        let value = match assignments {
            Some(asg) => {
                if operation.out < asg.wires.len() {
                    asg.wires[operation.out]
                } else {
                    assert(wire_value(a, ir.operations@[k as int].out) is None);
                    return Err(SynthesisFailure::AssignmentMissing);
                }
            },
            None => FieldElement::zero(),
        };
        assert(wire_value(a, ir.operations@[k as int].out) == Some(value@));
        let variable = allocations.len();
        let ghost before = allocations@;
        let ghost rows_before = rows@;
        allocations.push(Allocation::Witness(value));
        vars.set(operation.out, Some(variable));
        assert(vars@ == op_vars(*ir, (k + 1) as nat));
        assert(variable == (ni + k) as usize);
        let row = match enforce_operation(operation, variable, &vars) {
            Ok(row) => row,
            Err(e) => {
                assert(operation_row(ir.operations@[k as int].kind, (ni + k) as usize, op_vars(*ir, (k + 1) as nat)) is None);
                return Err(e);
            },
        };
        rows.push(row);
        proof {
            assert(allocs_view(allocations@) =~= allocs_view(before).push((false, value@)));
            assert(allocs_view(allocations@) =~= input_allocs + Seq::new((k + 1) as nat, |x: int| (false, wire_value(a, ir.operations@[x].out)->0)));
            assert(rows_view(rows@) =~= rows_view(rows_before).push(row_view(row)));
            assert(rows_view(rows@) =~= Seq::new(
                (k + 1) as nat,
                |x: int| operation_row(ir.operations@[x].kind, (ni + x) as usize, op_vars(*ir, (x + 1) as nat))->0,
            ));
        }
        k = k + 1;
    }
    let ghost op_rows = rows_view(rows@);
    let ghost before_ranges = allocs_view(allocations@);
    let mut c: usize = 0;
    while c < ir.constraints.len()
        invariant
            a == assignments,
            c <= ir.constraints@.len(),
            vars@ == wire_vars(*ir),
            op_rows.len() == ir.operations@.len(),
            rows_view(rows@) == op_rows + Seq::new(c as nat, |x: int| equality_row(ir.constraints@[x], wire_vars(*ir))->0),
            allocs_view(allocations@) == before_ranges,
            forall|x: int| 0 <= x < c ==> #[trigger] equality_row(ir.constraints@[x], wire_vars(*ir)) is Some,
        decreases ir.constraints.len() - c,
    {
        let ghost rows_before = rows@;
        let row = match enforce_equality(&ir.constraints[c], &vars) {
            Ok(row) => row,
            Err(e) => {
                assert(equality_row(ir.constraints@[c as int], wire_vars(*ir)) is None);
                return Err(e);
            },
        };
        rows.push(row);
        proof {
            assert(rows_view(rows@) =~= rows_view(rows_before).push(row_view(row)));
            assert(rows_view(rows@) =~= op_rows + Seq::new((c + 1) as nat, |x: int| equality_row(ir.constraints@[x], wire_vars(*ir))->0));
        }
        c = c + 1;
    }
    let ghost fixed_rows = rows_view(rows@);
    let mut g: usize = 0;
    assert(before_ranges.len() == ni + ir.operations@.len());
    assert(range_allocs(ir.range_constraints@, a, 0) =~= Seq::<(bool, nat)>::empty());
    assert(allocs_view(allocations@) =~= before_ranges + range_allocs(ir.range_constraints@, a, 0));
    assert(rows_view(rows@) =~= fixed_rows + range_rows_all(ir.range_constraints@, a, wire_vars(*ir), ni + ir.operations@.len(), 0));
    while g < ir.range_constraints.len()
        invariant
            a == assignments,
            g <= ir.range_constraints@.len(),
            vars@ == wire_vars(*ir),
            before_ranges.len() == ni + ir.operations@.len(),
            allocs_view(allocations@) == before_ranges + range_allocs(ir.range_constraints@, a, g as nat),
            rows_view(rows@) == fixed_rows + range_rows_all(ir.range_constraints@, a, wire_vars(*ir), ni + ir.operations@.len(), g as nat),
            forall|x: int| 0 <= x < g && range_bits_needed(#[trigger] ir.range_constraints@[x]) > 0
                ==> operand_terms(ir.range_constraints@[x].value, wire_vars(*ir)) is Some && range_assigned(ir.range_constraints@[x], a) is Some,
        decreases ir.range_constraints.len() - g,
    {
        let ghost allocs_before = allocations@;
        let ghost rows_before = rows@;
        match enforce_range(&ir.range_constraints[g], &vars, assignments, &mut allocations, &mut rows) {
            Ok(()) => {},
            Err(e) => {
                assert(range_bits_needed(ir.range_constraints@[g as int]) > 0);
                return Err(e);
            },
        }
        proof {
            let range = ir.range_constraints@[g as int];
            assert(range_bits_needed(range) > 0 ==> operand_terms(range.value, wire_vars(*ir)) is Some && range_assigned(range, a) is Some);
            assert(allocs_view(allocs_before).len() == allocs_before.len());
            assert(allocs_before.len() == before_ranges.len() + range_allocs(ir.range_constraints@, a, g as nat).len());
            if range_bits_needed(range) == 0 {
                assert(range_allocs(ir.range_constraints@, a, (g + 1) as nat) =~= range_allocs(ir.range_constraints@, a, g as nat));
                assert(range_rows_all(ir.range_constraints@, a, wire_vars(*ir), ni + ir.operations@.len(), (g + 1) as nat)
                    =~= range_rows_all(ir.range_constraints@, a, wire_vars(*ir), ni + ir.operations@.len(), g as nat));
            } else {
                assert(allocs_view(allocations@) =~= before_ranges + range_allocs(ir.range_constraints@, a, (g + 1) as nat));
                assert(rows_view(rows@) =~= fixed_rows + range_rows_all(
                    ir.range_constraints@,
                    a,
                    wire_vars(*ir),
                    ni + ir.operations@.len(),
                    (g + 1) as nat,
                ));
            }
        }
        g = g + 1;
    }
    let ghost base = allocations@.len();
    let ghost range_part = rows_view(rows@);
    assert(base == output_base(*ir, a));
    let mut o: usize = 0;
    while o < ir.outputs.len()
        invariant
            a == assignments,
            o <= ir.outputs@.len(),
            vars@ == wire_vars(*ir),
            base == output_base(*ir, a),
            allocations@.len() == base + o,
            allocs_view(allocations@) == before_ranges + range_allocs(ir.range_constraints@, a, ir.range_constraints@.len())
                + Seq::new(o as nat, |x: int| (true, output_value(a, ir.outputs@[x].name@)->0)),
            rows_view(rows@) == range_part + Seq::new(
                o as nat,
                |x: int|
                    (
                        operand_terms(ir.outputs@[x].value, wire_vars(*ir))->0,
                        seq![(1nat, Term::One)],
                        seq![(1nat, Term::Var((base + x) as usize))],
                    ),
            ),
            forall|x: int| 0 <= x < o ==> #[trigger] output_value(a, ir.outputs@[x].name@) is Some
                && operand_terms(ir.outputs@[x].value, wire_vars(*ir)) is Some,
        decreases ir.outputs.len() - o,
    {
        let output = &ir.outputs[o];
        let value = match assignments {
            Some(asg) => match first_value_of(&asg.outputs, output.name.as_str()) {
                Some(v) => v,
                None => {
                    assert(output_value(a, ir.outputs@[o as int].name@) is None);
                    return Err(SynthesisFailure::AssignmentMissing);
                },
            },
            None => FieldElement::zero(),
        };
        assert(output_value(a, ir.outputs@[o as int].name@) == Some(value@));
        let variable = allocations.len();
        let ghost before = allocations@;
        let ghost rows_before = rows@;
        allocations.push(Allocation::Instance(value));
        let value_lc = match operand_lc(output.value, &vars) {
            Ok(lc) => lc,
            Err(e) => {
                assert(operand_terms(ir.outputs@[o as int].value, wire_vars(*ir)) is None);
                return Err(e);
            },
        };
        let row = R1csRow { a: value_lc, b: one_term(Term::One), c: one_term(Term::Var(variable)) };
        rows.push(row);
        proof {
            assert(allocs_view(allocations@) =~= allocs_view(before).push((true, value@)));
            assert(allocs_view(allocations@) =~= before_ranges + range_allocs(ir.range_constraints@, a, ir.range_constraints@.len())
                + Seq::new((o + 1) as nat, |x: int| (true, output_value(a, ir.outputs@[x].name@)->0)));
            assert(rows_view(rows@) =~= rows_view(rows_before).push(row_view(row)));
            assert(rows_view(rows@) =~= range_part + Seq::new(
                (o + 1) as nat,
                |x: int|
                    (
                        operand_terms(ir.outputs@[x].value, wire_vars(*ir))->0,
                        seq![(1nat, Term::One)],
                        seq![(1nat, Term::Var((base + x) as usize))],
                    ),
            ));
        }
        o = o + 1;
    }
    let plan = R1csPlan { allocations, rows };
    proof {
        assert(allocs_view(plan.allocations@) =~= plan_allocs(*ir, a));
        assert(rows_view(plan.rows@) =~= plan_rows(*ir, a));
    }
    Ok(plan)
}


// ----- reading the bundle text back -----------------------------------------------------------

/// The lines after the header of a bundle's text artifact.
pub open spec fn bundle_record_lines(b: Groth16ProofBundle) -> Seq<Seq<char>> {
    seq![field_line("backend"@, b.backend@), field_line("circuit"@, b.circuit@)] + named_lines("public"@, b.public_inputs@)
        + named_lines("output"@, b.public_outputs@) + seq![field_line("proof"@, b.proof_hex@)]
}

/// The bundle's strings fit in records and its values are field elements: its text artifact
/// reads back as the bundle.
pub open spec fn bundle_text_plain(b: Groth16ProofBundle) -> bool {
    &&& plain_last_field(b.backend@)
    &&& plain_last_field(b.circuit@)
    &&& plain_named(b.public_inputs@)
    &&& plain_named(b.public_outputs@)
    &&& plain_last_field(b.proof_hex@)
}

proof fn lemma_bundle_literals()
    ensures
        "proof"@.len() > 0 && has_no("proof"@, '\n') && has_no("proof"@, '|') && "proof"@[0] == 'p',
        "backend"@.len() > 0 && has_no("backend"@, '\n') && has_no("backend"@, '|') && "backend"@[0] == 'b',
        "circuit"@.len() > 0 && has_no("circuit"@, '\n') && has_no("circuit"@, '|') && "circuit"@[0] == 'c',
        "public"@.len() > 0 && has_no("public"@, '\n') && has_no("public"@, '|') && "public"@[0] == 'p',
        "output"@.len() > 0 && has_no("output"@, '\n') && has_no("output"@, '|') && "output"@[0] == 'o',
        "backend"@ != "circuit"@ && "backend"@ != "proof"@ && "circuit"@ != "proof"@ && "public"@ != "output"@,
        "zkc-groth16-proof-v1\n"@ == bundle_header() + seq!['\n'],
        has_no(bundle_header(), '\n') && bundle_header().last() == '1',
        trimmed(bundle_header()) == bundle_header(),
{
    reveal_strlit("proof");
    reveal_strlit("backend");
    reveal_strlit("circuit");
    reveal_strlit("public");
    reveal_strlit("output");
    reveal_strlit("zkc-groth16-proof-v1");
    reveal_strlit("zkc-groth16-proof-v1\n");
    assert("backend"@[0] != "circuit"@[0]);
    assert("public"@[0] != "output"@[0]);
    assert("zkc-groth16-proof-v1\n"@ =~= bundle_header() + seq!['\n']);
    let h = bundle_header();
    assert(!crate::lexer::is_whitespace(h[0]));
    assert(h.last() == '1');
    crate::records::lemma_trimmed_nonempty(h);
    assert(crate::records::trim_end(h) == h);
}

proof fn lemma_bundle_text_lines(b: Groth16ProofBundle)
    ensures
        bundle_text(b) == lines_text(seq![bundle_header()] + bundle_record_lines(b)),
{
    lemma_bundle_literals();
    let l0 = field_line("backend"@, b.backend@);
    let l1 = field_line("circuit"@, b.circuit@);
    let pu = named_lines("public"@, b.public_inputs@);
    let ou = named_lines("output"@, b.public_outputs@);
    let l2 = field_line("proof"@, b.proof_hex@);
    lemma_named_records_text("public"@, b.public_inputs@);
    lemma_named_records_text("output"@, b.public_outputs@);
    let all = seq![bundle_header()] + bundle_record_lines(b);
    assert(all =~= seq![bundle_header()] + seq![l0] + seq![l1] + pu + ou + seq![l2]);
    lemma_lines_text_concat(seq![bundle_header()] + seq![l0] + seq![l1] + pu + ou, seq![l2]);
    lemma_lines_text_concat(seq![bundle_header()] + seq![l0] + seq![l1] + pu, ou);
    lemma_lines_text_concat(seq![bundle_header()] + seq![l0] + seq![l1], pu);
    lemma_lines_text_concat(seq![bundle_header()] + seq![l0], seq![l1]);
    lemma_lines_text_concat(seq![bundle_header()], seq![l0]);
    lemma_lines_text_one(bundle_header());
    lemma_lines_text_one(l0);
    lemma_lines_text_one(l1);
    lemma_lines_text_one(l2);
    assert(record_line("backend"@, b.backend@) =~= l0 + seq!['\n']);
    assert(record_line("circuit"@, b.circuit@) =~= l1 + seq!['\n']);
    assert(record_line("proof"@, b.proof_hex@) =~= l2 + seq!['\n']);
    assert(bundle_text(b) =~= lines_text(all));
}

proof fn lemma_bundle_lines_read(b: Groth16ProofBundle)
    requires
        bundle_text_plain(b),
    ensures
        text_lines(bundle_text(b)) == seq![bundle_header()] + bundle_record_lines(b),
        record_lines(bundle_text(b)) == bundle_record_lines(b),
{
    lemma_bundle_literals();
    lemma_bundle_text_lines(b);
    let l0 = field_line("backend"@, b.backend@);
    let l1 = field_line("circuit"@, b.circuit@);
    let pu = named_lines("public"@, b.public_inputs@);
    let ou = named_lines("output"@, b.public_outputs@);
    let l2 = field_line("proof"@, b.proof_hex@);
    let all = seq![bundle_header()] + bundle_record_lines(b);
    lemma_field_line_shape("backend"@, b.backend@);
    lemma_field_line_shape("circuit"@, b.circuit@);
    lemma_field_line_shape("proof"@, b.proof_hex@);
    assert forall|k: int| 0 <= k < pu.len() implies has_no(#[trigger] pu[k], '\n') && strip_cr(pu[k]) == pu[k] by {
        let v = b.public_inputs@[k];
        lemma_named_value_shape(v.name@, v.value@);
        lemma_field_line_shape("public"@, v.name@ + seq!['|'] + decimal(v.value@));
    }
    assert forall|k: int| 0 <= k < ou.len() implies has_no(#[trigger] ou[k], '\n') && strip_cr(ou[k]) == ou[k] by {
        let v = b.public_outputs@[k];
        lemma_named_value_shape(v.name@, v.value@);
        lemma_field_line_shape("output"@, v.name@ + seq!['|'] + decimal(v.value@));
    }
    let h = bundle_header();
    assert forall|k: int| 0 <= k < all.len() implies has_no(#[trigger] all[k], '\n') && strip_cr(all[k]) == all[k] by {
        let n1 = 3 + pu.len();
        let n2 = n1 + ou.len();
        if k == 0 {
            assert(all[k] == h);
        } else if k == 1 {
            assert(all[k] == l0);
        } else if k == 2 {
            assert(all[k] == l1);
        } else if k < n1 {
            assert(all[k] == pu[k - 3]);
        } else if k < n2 {
            assert(all[k] == ou[k - n1]);
        } else {
            assert(all[k] == l2);
        }
    }
    crate::records::lemma_text_lines_of(all);
    assert(all.subrange(1, all.len() as int) =~= bundle_record_lines(b));
}

proof fn lemma_no_bundle_errors(lines: Seq<Seq<char>>)
    requires
        forall|k: int| 0 <= k < lines.len() ==> bundle_line_error(#[trigger] lines[k]) is None,
    ensures
        first_bundle_error(lines) is None,
    decreases lines.len(),
{
    if lines.len() > 0 {
        let init = lines.drop_last();
        assert forall|k: int| 0 <= k < init.len() implies bundle_line_error(#[trigger] init[k]) is None by {
            assert(init[k] == lines[k]);
        }
        lemma_no_bundle_errors(init);
        assert(bundle_line_error(lines[lines.len() - 1]) is None);
    }
}

/// The text artifact of a bundle whose strings fit in records reads back as the same bundle:
/// its header is recognized, no line fails, each single record carries the bundle's value, and
/// the public and output records list the bundle's values in order.
#[verifier::spinoff_prover]
#[verifier::rlimit(80)]
pub proof fn lemma_bundle_text_reads_back(b: Groth16ProofBundle)
    requires
        bundle_text_plain(b),
    ensures
        text_lines(bundle_text(b)).len() > 0,
        trimmed(text_lines(bundle_text(b))[0]) == bundle_header(),
        first_bundle_error(record_lines(bundle_text(b))) is None,
        missing_bundle_record(record_lines(bundle_text(b))) is None,
        last_record(record_lines(bundle_text(b)), "backend"@) == Some(b.backend@),
        last_record(record_lines(bundle_text(b)), "circuit"@) == Some(b.circuit@),
        last_record(record_lines(bundle_text(b)), "proof"@) == Some(b.proof_hex@),
        named_values_read(b.public_inputs@, named_record_values(record_lines(bundle_text(b)), "public"@)),
        named_values_read(b.public_outputs@, named_record_values(record_lines(bundle_text(b)), "output"@)),
{
    lemma_bundle_literals();
    lemma_bundle_lines_read(b);
    let l0 = field_line("backend"@, b.backend@);
    let l1 = field_line("circuit"@, b.circuit@);
    let pu = named_lines("public"@, b.public_inputs@);
    let ou = named_lines("output"@, b.public_outputs@);
    let l2 = field_line("proof"@, b.proof_hex@);
    let lines = bundle_record_lines(b);
    lemma_record_fields("backend"@, b.backend@);
    lemma_record_fields("circuit"@, b.circuit@);
    lemma_record_fields("proof"@, b.proof_hex@);
    lemma_named_lines_read("public"@, b.public_inputs@);
    lemma_named_lines_read("output"@, b.public_outputs@);
    // no line fails
    assert forall|k: int| 0 <= k < lines.len() implies bundle_line_error(#[trigger] lines[k]) is None by {
        let n1 = 2 + pu.len();
        let n2 = n1 + ou.len();
        if k == 0 {
            assert(lines[k] == l0);
        } else if k == 1 {
            assert(lines[k] == l1);
        } else if k < n1 {
            assert(lines[k] == pu[k - 2]);
            lemma_digits_plain(b.public_inputs@[k - 2].value@);
        } else if k < n2 {
            assert(lines[k] == ou[k - n1]);
            lemma_digits_plain(b.public_outputs@[k - n1].value@);
        } else {
            assert(lines[k] == l2);
        }
    }
    lemma_no_bundle_errors(lines);
    // the single records
    let head = seq![l0, l1];
    let middle = pu + ou;
    assert(lines =~= head + (middle + seq![l2]));
    assert forall|k: int| 0 <= k < middle.len() implies split_on(#[trigger] middle[k], '|').len() == 3 by {
        if k < pu.len() {
            assert(middle[k] == pu[k]);
        } else {
            assert(middle[k] == ou[k - pu.len()]);
        }
    }
    let tail = middle + seq![l2];
    assert forall|k: int| 0 <= k < tail.len() implies !is_record(#[trigger] tail[k], "backend"@, 2) && !is_record(tail[k], "circuit"@, 2) by {
        if k < middle.len() {
            assert(tail[k] == middle[k]);
        } else {
            assert(tail[k] == l2);
        }
    }
    lemma_last_record_skip(head, tail, "backend"@);
    lemma_last_record_skip(head, tail, "circuit"@);
    assert(head.drop_last() =~= seq![l0]);
    assert(head.drop_last().drop_last() =~= Seq::<Seq<char>>::empty());
    reveal_with_fuel(last_record, 3);
    assert(lines.last() == l2);
    // the named records
    assert(!is_record(l0, "public"@, 3) && !is_record(l1, "public"@, 3) && !is_record(l2, "public"@, 3));
    assert(!is_record(l0, "output"@, 3) && !is_record(l1, "output"@, 3) && !is_record(l2, "output"@, 3));
    assert forall|k: int| 0 <= k < head.len() implies !is_record(#[trigger] head[k], "public"@, 3) by {}
    let post = ou + seq![l2];
    assert forall|k: int| 0 <= k < post.len() implies !is_record(#[trigger] post[k], "public"@, 3) by {
        if k < ou.len() {
            assert(post[k] == ou[k]);
            assert(split_on(ou[k], '|')[0] == "output"@);
        } else {
            assert(post[k] == l2);
        }
    }
    lemma_named_only(head, pu, post, "public"@);
    assert(lines =~= head + pu + post);
    let pre = head + pu;
    assert forall|k: int| 0 <= k < pre.len() implies !is_record(#[trigger] pre[k], "output"@, 3) by {
        if k < 2 {
            assert(pre[k] == head[k]);
        } else {
            assert(pre[k] == pu[k - 2]);
            assert(split_on(pu[k - 2], '|')[0] == "public"@);
        }
    }
    assert forall|k: int| 0 <= k < 1 implies !is_record(#[trigger] seq![l2][k], "output"@, 3) by {}
    lemma_named_only(pre, ou, seq![l2], "output"@);
    assert(lines =~= pre + ou + seq![l2]);
}

} // verus!
