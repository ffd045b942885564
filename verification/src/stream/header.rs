//! The header of a log: what its lines say, and the schema built from it.
use vstd::prelude::*;
use crate::frame::{FieldEncoding, RawFieldEncoding};
use vstd::utf8::encode_utf8;
use crate::frame::data::{spec_encodings_wf, spec_payload_width, spec_payload_width_from};
use crate::frame::header::{parse_header, spec_parse_header, spec_starts_line};
use crate::frame::text::{find_byte, i64_from_dec, spec_find_byte, spec_signed, COMMA};
use crate::frame::Fault;
use crate::stream::builder::{BuilderModel, FieldLists, FieldListsModel, HeaderBuilder};
use crate::stream::interval::PInterval;
use crate::stream::predictor::{
    spec_g_predictors_wf, spec_i_predictors_wf, spec_p_predictors_wf, AnyGPredictor,
    AnyIPredictor, AnyPPredictor, FieldPredictor, NonePredictor,
};

verus! {

/// The most fields that a tagged codec of the kind of `raw` covers; 1 for a
/// codec without a tag.
pub open spec fn spec_group_limit(raw: RawFieldEncoding) -> nat {
    match raw {
        RawFieldEncoding::Tag8_8SVB => 8,
        RawFieldEncoding::Tag2_3S32 => 3,
        RawFieldEncoding::Tag8_4S16 => 4,
        RawFieldEncoding::Tag2_3SVariable => 3,
        _ => 1,
    }
}

/// The codec of the kind of `raw` over `n` fields.
pub open spec fn spec_grouped(raw: RawFieldEncoding, n: usize) -> FieldEncoding {
    match raw {
        RawFieldEncoding::SignedVB => FieldEncoding::SignedVB,
        RawFieldEncoding::UnsignedVB => FieldEncoding::UnsignedVB,
        RawFieldEncoding::Negative14BitVB => FieldEncoding::Negative14BitVB,
        RawFieldEncoding::Tag8_8SVB => FieldEncoding::Tag8_8SVB(n),
        RawFieldEncoding::Tag2_3S32 => FieldEncoding::Tag2_3S32(n),
        RawFieldEncoding::Tag8_4S16 => FieldEncoding::Tag8_4S16(n),
        RawFieldEncoding::Null => FieldEncoding::Null,
        RawFieldEncoding::Tag2_3SVariable => FieldEncoding::Tag2_3SVariable(n),
    }
}

/// The kind of a grouped codec.
pub open spec fn spec_raw_of(encoding: FieldEncoding) -> RawFieldEncoding {
    match encoding {
        FieldEncoding::SignedVB => RawFieldEncoding::SignedVB,
        FieldEncoding::UnsignedVB => RawFieldEncoding::UnsignedVB,
        FieldEncoding::Negative14BitVB => RawFieldEncoding::Negative14BitVB,
        FieldEncoding::Tag8_8SVB(_) => RawFieldEncoding::Tag8_8SVB,
        FieldEncoding::Tag2_3S32(_) => RawFieldEncoding::Tag2_3S32,
        FieldEncoding::Tag8_4S16(_) => RawFieldEncoding::Tag8_4S16,
        FieldEncoding::Null => RawFieldEncoding::Null,
        FieldEncoding::Tag2_3SVariable(_) => RawFieldEncoding::Tag2_3SVariable,
    }
}

/// The number of fields that a grouped codec covers.
pub open spec fn spec_covered(encoding: FieldEncoding) -> nat {
    match encoding {
        FieldEncoding::Tag8_8SVB(n) => n as nat,
        FieldEncoding::Tag2_3S32(n) => n as nat,
        FieldEncoding::Tag8_4S16(n) => n as nat,
        FieldEncoding::Tag2_3SVariable(n) => n as nat,
        _ => 1,
    }
}

/// The groups after one more field with encoding `raw`: it joins the last
/// group where that is of its kind, tagged and not full, and starts a group
/// of its own otherwise.
pub open spec fn spec_add_encoding(groups: Seq<FieldEncoding>, raw: RawFieldEncoding) -> Seq<
    FieldEncoding,
> {
    if groups.len() > 0 && spec_group_limit(raw) > 1 && spec_raw_of(groups.last()) == raw
        && spec_covered(groups.last()) != spec_group_limit(raw) {
        groups.update(
            groups.len() - 1,
            spec_grouped(raw, (spec_covered(groups.last()) + 1) as usize),
        )
    } else {
        groups.push(spec_grouped(raw, 1))
    }
}

/// The grouped codecs of a list of field encodings.
pub open spec fn spec_group(raws: Seq<RawFieldEncoding>) -> Seq<FieldEncoding>
    decreases raws.len(),
{
    if raws.len() == 0 {
        Seq::empty()
    } else {
        spec_add_encoding(spec_group(raws.drop_last()), raws.last())
    }
}

/// The field encodings that a list of grouped codecs stands for: each
/// codec's kind, once for every field that it covers.
pub open spec fn spec_expand(groups: Seq<FieldEncoding>) -> Seq<RawFieldEncoding>
    decreases groups.len(),
{
    if groups.len() == 0 {
        Seq::empty()
    } else {
        spec_expand(groups.drop_last()) + Seq::new(
            spec_covered(groups.last()),
            |i: int| spec_raw_of(groups.last()),
        )
    }
}

/// Grouping keeps every group within what its tag byte has room for, and
/// loses no field: each group covers as many fields as the run of equal
/// encodings that it was made of, so that the groups stand for the very list
/// of encodings that they were made from.
pub proof fn lemma_group(raws: Seq<RawFieldEncoding>)
    ensures
        spec_encodings_wf(spec_group(raws)),
        spec_expand(spec_group(raws)) == raws,
        forall|i: int|
            0 <= i < spec_group(raws).len() ==> 1 <= spec_covered(#[trigger] spec_group(raws)[i])
                <= spec_group_limit(spec_raw_of(spec_group(raws)[i])),
    decreases raws.len(),
{
    if raws.len() > 0 {
        let before = spec_group(raws.drop_last());
        let raw = raws.last();
        let after = spec_add_encoding(before, raw);
        lemma_group(raws.drop_last());
        if before.len() > 0 && spec_group_limit(raw) > 1 && spec_raw_of(before.last()) == raw
            && spec_covered(before.last()) != spec_group_limit(raw) {
            assert(before.last() == before[before.len() - 1]);
            assert(after.drop_last() =~= before.drop_last());
            let k = spec_covered(before.last());
            assert(Seq::new((k + 1) as nat, |i: int| raw) =~= Seq::new(k, |i: int| raw) + seq![
                raw,
            ]);
            assert(spec_expand(after) =~= spec_expand(before) + seq![raw]);
        } else {
            assert(after.drop_last() =~= before);
            assert(Seq::new(1, |i: int| raw) =~= seq![raw]);
            assert(spec_expand(after) =~= spec_expand(before) + seq![raw]);
        }
        assert(raws =~= raws.drop_last() + seq![raw]);
    }
}

/// Adds one field's encoding to the grouped codecs.
pub fn add_encoding(encodings: &mut Vec<FieldEncoding>, new_encoding: RawFieldEncoding)
    requires
        spec_encodings_wf(old(encodings)@),
    ensures
        final(encodings)@ == spec_add_encoding(old(encodings)@, new_encoding),
        spec_encodings_wf(final(encodings)@),
{
    let len: usize = encodings.len();
    if len > 0 {
        let last: FieldEncoding = encodings[len - 1];
        match (new_encoding, last) {
            (RawFieldEncoding::Tag8_8SVB, FieldEncoding::Tag8_8SVB(n_fields)) => {
                if n_fields != 8 {
                    encodings.set(len - 1, FieldEncoding::Tag8_8SVB(n_fields + 1));
                    return ;
                }
            },
            (RawFieldEncoding::Tag2_3S32, FieldEncoding::Tag2_3S32(n_fields)) => {
                if n_fields != 3 {
                    encodings.set(len - 1, FieldEncoding::Tag2_3S32(n_fields + 1));
                    return ;
                }
            },
            (RawFieldEncoding::Tag2_3SVariable, FieldEncoding::Tag2_3SVariable(n_fields)) => {
                if n_fields != 3 {
                    encodings.set(len - 1, FieldEncoding::Tag2_3SVariable(n_fields + 1));
                    return ;
                }
            },
            (RawFieldEncoding::Tag8_4S16, FieldEncoding::Tag8_4S16(n_fields)) => {
                if n_fields != 4 {
                    encodings.set(len - 1, FieldEncoding::Tag8_4S16(n_fields + 1));
                    return ;
                }
            },
            _ => {},
        }
    }
    let grouped: FieldEncoding = match new_encoding {
        RawFieldEncoding::Tag8_8SVB => FieldEncoding::Tag8_8SVB(1),
        RawFieldEncoding::Tag2_3S32 => FieldEncoding::Tag2_3S32(1),
        RawFieldEncoding::Tag2_3SVariable => FieldEncoding::Tag2_3SVariable(1),
        RawFieldEncoding::Tag8_4S16 => FieldEncoding::Tag8_4S16(1),
        RawFieldEncoding::Null => FieldEncoding::Null,
        RawFieldEncoding::Negative14BitVB => FieldEncoding::Negative14BitVB,
        RawFieldEncoding::SignedVB => FieldEncoding::SignedVB,
        RawFieldEncoding::UnsignedVB => FieldEncoding::UnsignedVB,
    };
    encodings.push(grouped);
}

/// A field of main records.
#[derive(Clone, Debug)]
pub struct IPField {
    pub name: String,
    pub ix: usize,
    pub signed: bool,
}

/// A field of slow records.
#[derive(Clone, Debug)]
pub struct SlowField {
    pub name: String,
    pub ix: usize,
    pub signed: bool,
    pub predictor: FieldPredictor,
}

/// A field of GNSS records.
#[derive(Clone, Debug)]
pub struct GNSSField {
    pub name: String,
    pub ix: usize,
    pub signed: bool,
    pub predictor: FieldPredictor,
}

/// A field of GNSS home records.
#[derive(Clone, Debug)]
pub struct GNSSHomeField {
    pub name: String,
    pub ix: usize,
    pub signed: bool,
    pub predictor: FieldPredictor,
}

/// Whether two texts are the same.
pub fn str_eq(a: &str, b: &str) -> (r: bool)
    ensures
        r == (a@ == b@),
{
    let left = a.as_bytes();
    let right = b.as_bytes();
    proof {
        vstd::utf8::encode_utf8_decode_utf8(a@);
        vstd::utf8::encode_utf8_decode_utf8(b@);
    }
    if left.len() != right.len() {
        return false;
    }
    let mut i: usize = 0;
    while i < left.len()
        invariant
            left@ == encode_utf8(a@),
            right@ == encode_utf8(b@),
            vstd::utf8::decode_utf8(encode_utf8(a@)) == a@,
            vstd::utf8::decode_utf8(encode_utf8(b@)) == b@,
            left@.len() == right@.len(),
            i <= left@.len(),
            forall|j: int| 0 <= j < i ==> left@[j] == right@[j],
        decreases left@.len() - i,
    {
        if left[i] != right[i] {
            return false;
        }
        i = i + 1;
    }
    assert(left@ =~= right@);
    true
}

/// Keys and values of settings as plain text.
pub open spec fn spec_pairs(settings: Seq<(String, String)>) -> Seq<(Seq<char>, Seq<char>)> {
    Seq::new(settings.len(), |i: int| (settings[i].0@, settings[i].1@))
}

/// The value of the last of the settings with key `key`.
pub open spec fn spec_setting(settings: Seq<(Seq<char>, Seq<char>)>, key: Seq<char>) -> Option<
    Seq<char>,
>
    decreases settings.len(),
{
    if settings.len() == 0 {
        None
    } else if settings.last().0 == key {
        Some(settings.last().1)
    } else {
        spec_setting(settings.drop_last(), key)
    }
}

/// Looks a setting up by its key. Where a key was set more than once, the
/// last value counts.
pub fn setting<'a>(settings: &'a Vec<(String, String)>, key: &str) -> (r: Option<&'a String>)
    ensures
        r matches Some(value) ==> spec_setting(spec_pairs(settings@), key@) == Some(value@),
        r is None ==> spec_setting(spec_pairs(settings@), key@) is None,
{
    let ghost pairs = spec_pairs(settings@);
    let mut i: usize = settings.len();
    assert(pairs.take(i as int) =~= pairs);
    while i > 0
        invariant
            i <= settings@.len(),
            pairs == spec_pairs(settings@),
            spec_setting(pairs, key@) == spec_setting(pairs.take(i as int), key@),
        decreases i,
    {
        proof {
            assert(pairs.take(i as int).drop_last() =~= pairs.take(i - 1));
        }
        i = i - 1;
        if str_eq(settings[i].0.as_str(), key) {
            return Some(&settings[i].1);
        }
    }
    assert(pairs.take(0) =~= Seq::<(Seq<char>, Seq<char>)>::empty());
    None
}

/// A decimal `i64`, as text.
pub open spec fn spec_number(text: Seq<char>) -> Option<i64> {
    match spec_signed(encode_utf8(text), -0x8000_0000_0000_0000, 0x7fff_ffff_ffff_ffff) {
        Some(v) => Some(v as i64),
        None => None,
    }
}

/// The first item of a list, as a decimal `i64`.
pub open spec fn spec_first_number(text: Seq<char>) -> Option<i64> {
    let bytes = encode_utf8(text);
    let end = match spec_find_byte(bytes, 0, COMMA) {
        Some(comma) => comma,
        None => bytes.len() as int,
    };
    match spec_signed(bytes.subrange(0, end), -0x8000_0000_0000_0000, 0x7fff_ffff_ffff_ffff) {
        Some(v) => Some(v as i64),
        None => None,
    }
}

/// The setting with key `key` as a number.
pub open spec fn spec_setting_number(settings: Seq<(Seq<char>, Seq<char>)>, key: Seq<char>) -> Option<
    i64,
> {
    match spec_setting(settings, key) {
        Some(text) => spec_number(text),
        None => None,
    }
}

/// The first item of the setting with key `key` as a number.
pub open spec fn spec_setting_first_number(
    settings: Seq<(Seq<char>, Seq<char>)>,
    key: Seq<char>,
) -> Option<i64> {
    match spec_setting(settings, key) {
        Some(text) => spec_first_number(text),
        None => None,
    }
}

/// Reads a setting as a decimal number.
pub fn setting_number(settings: &Vec<(String, String)>, key: &str) -> (r: Option<i64>)
    ensures
        r == spec_setting_number(spec_pairs(settings@), key@),
{
    match setting(settings, key) {
        None => None,
        Some(text) => match i64_from_dec(text.as_str().as_bytes()) {
            Ok(v) => Some(v),
            Err(_) => None,
        },
    }
}

/// Reads the first item of a setting as a decimal number.
pub fn setting_first_number(settings: &Vec<(String, String)>, key: &str) -> (r: Option<i64>)
    ensures
        r == spec_setting_first_number(spec_pairs(settings@), key@),
{
    match setting(settings, key) {
        None => None,
        Some(text) => {
            let bytes = text.as_str().as_bytes();
            let end: usize = match find_byte(bytes, 0, COMMA) {
                Some(comma) => comma,
                None => bytes.len(),
            };
            match i64_from_dec(vstd::slice::slice_subrange(bytes, 0, end)) {
                Ok(v) => Some(v),
                Err(_) => None,
            }
        },
    }
}

/// The names of a list of main fields.
pub open spec fn spec_ip_names(fields: Seq<IPField>) -> Seq<Seq<char>> {
    Seq::new(fields.len(), |i: int| fields[i].name@)
}

/// The last place of `name` among `names`.
pub open spec fn spec_last_index(names: Seq<Seq<char>>, name: Seq<char>) -> Option<int>
    decreases names.len(),
{
    if names.len() == 0 {
        None
    } else if names.last() == name {
        Some(names.len() - 1)
    } else {
        spec_last_index(names.drop_last(), name)
    }
}

/// The first place of `name` among `names`.
pub open spec fn spec_first_index(names: Seq<Seq<char>>, name: Seq<char>) -> Option<int>
    decreases names.len(),
{
    if names.len() == 0 {
        None
    } else {
        match spec_first_index(names.drop_last(), name) {
            Some(i) => Some(i),
            None => if names.last() == name {
                Some(names.len() - 1)
            } else {
                None
            },
        }
    }
}

/// What the two searches find is a place of the name, and the first and the
/// last one.
pub proof fn lemma_index(names: Seq<Seq<char>>, name: Seq<char>)
    ensures
        spec_last_index(names, name) matches Some(i) ==> 0 <= i < names.len() && names[i] == name
            && forall|j: int| i < j < names.len() ==> names[j] != name,
        spec_first_index(names, name) matches Some(i) ==> 0 <= i < names.len() && names[i] == name
            && forall|j: int| 0 <= j < i ==> names[j] != name,
        spec_last_index(names, name) is None ==> forall|j: int|
            0 <= j < names.len() ==> names[j] != name,
        spec_first_index(names, name) is None <==> spec_last_index(names, name) is None,
    decreases names.len(),
{
    if names.len() > 0 {
        lemma_index(names.drop_last(), name);
        assert(forall|j: int| 0 <= j < names.len() - 1 ==> names.drop_last()[j] == names[j]);
    }
}

/// The last of the main fields with name `name`.
pub fn last_ip_field(fields: &Vec<IPField>, name: &str) -> (r: Option<usize>)
    ensures
        r matches Some(i) ==> spec_last_index(spec_ip_names(fields@), name@) == Some(i as int)
            && i < fields@.len(),
        r is None ==> spec_last_index(spec_ip_names(fields@), name@) is None,
{
    let ghost names = spec_ip_names(fields@);
    let mut i: usize = fields.len();
    assert(names.take(i as int) =~= names);
    while i > 0
        invariant
            i <= fields@.len(),
            names == spec_ip_names(fields@),
            spec_last_index(names, name@) == spec_last_index(names.take(i as int), name@),
        decreases i,
    {
        proof {
            assert(names.take(i as int).drop_last() =~= names.take(i - 1));
        }
        i = i - 1;
        if str_eq(fields[i].name.as_str(), name) {
            return Some(i);
        }
    }
    assert(names.take(0) =~= Seq::<Seq<char>>::empty());
    None
}

/// The first of the main fields with name `name`.
pub fn first_ip_field(fields: &Vec<IPField>, name: &str) -> (r: Option<usize>)
    ensures
        r matches Some(i) ==> spec_first_index(spec_ip_names(fields@), name@) == Some(i as int)
            && i < fields@.len(),
        r is None ==> spec_first_index(spec_ip_names(fields@), name@) is None,
{
    let ghost names = spec_ip_names(fields@);
    let mut i: usize = 0;
    while i < fields.len()
        invariant
            i <= fields@.len(),
            names == spec_ip_names(fields@),
            spec_first_index(names.take(i as int), name@) is None,
        decreases fields@.len() - i,
    {
        proof {
            assert(names.take(i + 1).drop_last() =~= names.take(i as int));
            lemma_first_index_prefix(names, name@, i + 1);
        }
        if str_eq(fields[i].name.as_str(), name) {
            return Some(i);
        }
        i = i + 1;
    }
    assert(names.take(i as int) =~= names);
    None
}

/// Where a prefix of the names holds `name`, its first place in the prefix
/// is its first place among all.
pub proof fn lemma_first_index_prefix(names: Seq<Seq<char>>, name: Seq<char>, k: int)
    requires
        0 <= k <= names.len(),
    ensures
        spec_first_index(names.take(k), name) is Some ==> spec_first_index(names, name)
            == spec_first_index(names.take(k), name),
    decreases names.len() - k,
{
    if k < names.len() {
        lemma_first_index_prefix(names.drop_last(), name, k);
        assert(names.drop_last().take(k) =~= names.take(k));
    } else {
        assert(names.take(k) =~= names);
    }
}

/// How many values the codecs yield together, counted from the front.
pub open spec fn spec_total_width(encodings: Seq<FieldEncoding>) -> nat
    decreases encodings.len(),
{
    if encodings.len() == 0 {
        0
    } else {
        spec_total_width(encodings.drop_last()) + encodings.last().spec_width()
    }
}

proof fn lemma_total_width_from(encodings: Seq<FieldEncoding>, i: nat)
    requires
        i <= encodings.len(),
    ensures
        spec_total_width(encodings.take(i as int)) + spec_payload_width_from(encodings, i)
            == spec_total_width(encodings),
    decreases encodings.len() - i,
{
    if i < encodings.len() {
        lemma_total_width_from(encodings, i + 1);
        assert(encodings.take(i as int + 1).drop_last() =~= encodings.take(i as int));
    } else {
        assert(encodings.take(i as int) =~= encodings);
    }
}

/// Counting the values of a list of codecs from the front or from the back
/// gives the same number.
pub proof fn lemma_total_width(encodings: Seq<FieldEncoding>)
    ensures
        spec_payload_width(encodings) == spec_total_width(encodings),
{
    lemma_total_width_from(encodings, 0);
    assert(encodings.take(0) =~= Seq::<FieldEncoding>::empty());
}

/// Whether the codecs yield `target` values together.
pub fn widths_sum_to(encodings: &Vec<FieldEncoding>, target: usize) -> (r: bool)
    ensures
        r == (spec_payload_width(encodings@) == target),
{
    proof {
        lemma_total_width(encodings@);
    }
    let mut sum: usize = 0;
    let mut i: usize = 0;
    while i < encodings.len()
        invariant
            i <= encodings@.len(),
            sum == spec_total_width(encodings@.take(i as int)),
            sum <= target,
            spec_payload_width(encodings@) == spec_total_width(encodings@),
        decreases encodings@.len() - i,
    {
        proof {
            assert(encodings@.take(i + 1).drop_last() =~= encodings@.take(i as int));
            lemma_total_width_from(encodings@, (i + 1) as nat);
        }
        let width: usize = match encodings[i] {
            FieldEncoding::Tag8_8SVB(n) => n,
            FieldEncoding::Tag2_3S32(_) => 3,
            FieldEncoding::Tag8_4S16(_) => 4,
            FieldEncoding::Tag2_3SVariable(n) => n,
            _ => 1,
        };
        if width > target - sum {
            return false;
        }
        sum = sum + width;
        i = i + 1;
    }
    assert(encodings@.take(i as int) =~= encodings@);
    sum == target
}

/// Which of the two home coordinates a GNSS field refers to: the first
/// where `0` follows the first `[` of its name, the second otherwise.
pub open spec fn spec_home_index(name: Seq<char>) -> usize {
    match spec_find_char(name, 0, '[') {
        Some(at) => if at + 1 < name.len() && name[at + 1] == '0' {
            0
        } else {
            1
        },
        None => 1,
    }
}

/// The first place from `pos` on that holds `c`.
pub open spec fn spec_find_char(s: Seq<char>, pos: int, c: char) -> Option<int>
    decreases s.len() - pos,
{
    if pos < 0 || pos >= s.len() {
        None
    } else if s[pos] == c {
        Some(pos)
    } else {
        spec_find_char(s, pos + 1, c)
    }
}

/// Which of the two home coordinates the GNSS field `name` refers to.
pub fn home_index(name: &str) -> (r: usize)
    ensures
        r == spec_home_index(name@),
        r < 2,
{
    let len: usize = name.unicode_len();
    let mut i: usize = 0;
    while i < len
        invariant
            len == name@.len(),
            i <= len,
            spec_find_char(name@, 0, '[') == spec_find_char(name@, i as int, '['),
        decreases len - i,
    {
        if name.get_char(i) == '[' {
            if len - i > 1 && name.get_char(i + 1) == '0' {
                return 0;
            }
            return 1;
        }
        i = i + 1;
    }
    1
}

/// A main field as a plain value.
pub struct IPFieldModel {
    pub name: Seq<char>,
    pub ix: int,
    pub signed: bool,
}

/// A slow, GNSS or home field as a plain value.
pub struct FieldModel {
    pub name: Seq<char>,
    pub ix: int,
    pub signed: bool,
    pub predictor: FieldPredictor,
}

impl View for IPField {
    type V = IPFieldModel;

    open spec fn view(&self) -> IPFieldModel {
        IPFieldModel { name: self.name@, ix: self.ix as int, signed: self.signed }
    }
}

impl View for SlowField {
    type V = FieldModel;

    open spec fn view(&self) -> FieldModel {
        FieldModel {
            name: self.name@,
            ix: self.ix as int,
            signed: self.signed,
            predictor: self.predictor,
        }
    }
}

impl View for GNSSField {
    type V = FieldModel;

    open spec fn view(&self) -> FieldModel {
        FieldModel {
            name: self.name@,
            ix: self.ix as int,
            signed: self.signed,
            predictor: self.predictor,
        }
    }
}

impl View for GNSSHomeField {
    type V = FieldModel;

    open spec fn view(&self) -> FieldModel {
        FieldModel {
            name: self.name@,
            ix: self.ix as int,
            signed: self.signed,
            predictor: self.predictor,
        }
    }
}

/// Why a header could not be built from its lines.
#[derive(Clone, Copy, Debug)]
pub enum HeaderBuildError {
    /// A line that every header must have is not there.
    MissingHeader(&'static str),
    /// The lists of the named key do not fit the rest of the header.
    InvalidHeader(&'static str),
}

impl HeaderBuildError {
    /// The key that the error is about.
    pub fn as_ref(&self) -> (r: &str)
        ensures
            r@ == (match *self {
                HeaderBuildError::MissingHeader(key) => key@,
                HeaderBuildError::InvalidHeader(key) => key@,
            }),
    {
        match self {
            HeaderBuildError::MissingHeader(key) => key,
            HeaderBuildError::InvalidHeader(key) => key,
        }
    }
}

/// The schema of a log.
#[derive(Clone, Debug)]
pub struct Header {
    pub product: String,
    pub data_version: String,
    pub i_interval: i16,
    pub p_interval: PInterval,
    pub p_ratio: u16,
    /// The bit pattern of the gyro scale, an IEEE-754 single.
    pub raw_gyro_scale: u32,
    pub loop_time: u32,
    pub other_headers: Vec<(String, String)>,
    pub ip_fields_in_order: Vec<IPField>,
    pub s_fields_in_order: Vec<SlowField>,
    pub g_fields_in_order: Vec<GNSSField>,
    pub h_fields_in_order: Vec<GNSSHomeField>,
    pub i_field_encodings: Vec<FieldEncoding>,
    pub i_field_predictors: Vec<AnyIPredictor>,
    pub p_field_encodings: Vec<FieldEncoding>,
    pub p_field_predictors: Vec<AnyPPredictor>,
    pub s_field_encodings: Vec<FieldEncoding>,
    pub g_field_encodings: Vec<FieldEncoding>,
    pub g_field_predictors: Vec<AnyGPredictor>,
    pub h_field_encodings: Vec<FieldEncoding>,
    pub h_field_predictors: Vec<AnyPPredictor>,
}

/// A schema as plain values.
pub struct HeaderModel {
    pub product: Seq<char>,
    pub data_version: Seq<char>,
    pub i_interval: i16,
    pub p_interval: PInterval,
    pub p_ratio: u16,
    pub raw_gyro_scale: u32,
    pub loop_time: u32,
    pub other_headers: Seq<(Seq<char>, Seq<char>)>,
    pub ip_fields: Seq<IPFieldModel>,
    pub s_fields: Seq<FieldModel>,
    pub g_fields: Seq<FieldModel>,
    pub h_fields: Seq<FieldModel>,
    pub i_field_encodings: Seq<FieldEncoding>,
    pub i_field_predictors: Seq<AnyIPredictor>,
    pub p_field_encodings: Seq<FieldEncoding>,
    pub p_field_predictors: Seq<AnyPPredictor>,
    pub s_field_encodings: Seq<FieldEncoding>,
    pub g_field_encodings: Seq<FieldEncoding>,
    pub g_field_predictors: Seq<AnyGPredictor>,
    pub h_field_encodings: Seq<FieldEncoding>,
    pub h_field_predictors: Seq<AnyPPredictor>,
}

impl View for Header {
    type V = HeaderModel;

    open spec fn view(&self) -> HeaderModel {
        HeaderModel {
            product: self.product@,
            data_version: self.data_version@,
            i_interval: self.i_interval,
            p_interval: self.p_interval,
            p_ratio: self.p_ratio,
            raw_gyro_scale: self.raw_gyro_scale,
            loop_time: self.loop_time,
            other_headers: spec_pairs(self.other_headers@),
            ip_fields: Seq::new(
                self.ip_fields_in_order@.len(),
                |i: int| self.ip_fields_in_order@[i]@,
            ),
            s_fields: Seq::new(
                self.s_fields_in_order@.len(),
                |i: int| self.s_fields_in_order@[i]@,
            ),
            g_fields: Seq::new(
                self.g_fields_in_order@.len(),
                |i: int| self.g_fields_in_order@[i]@,
            ),
            h_fields: Seq::new(
                self.h_fields_in_order@.len(),
                |i: int| self.h_fields_in_order@[i]@,
            ),
            i_field_encodings: self.i_field_encodings@,
            i_field_predictors: self.i_field_predictors@,
            p_field_encodings: self.p_field_encodings@,
            p_field_predictors: self.p_field_predictors@,
            s_field_encodings: self.s_field_encodings@,
            g_field_encodings: self.g_field_encodings@,
            g_field_predictors: self.g_field_predictors@,
            h_field_encodings: self.h_field_encodings@,
            h_field_predictors: self.h_field_predictors@,
        }
    }
}

impl HeaderModel {
    /// The schema is fit to decode with: its codecs are well formed; every
    /// main field has one predictor for I frames and one for P frames, and
    /// every GNSS field one for G frames; the codecs of a class yield one
    /// value for each of its fields; and every field and every predictor
    /// stands at its own index.
    pub open spec fn wf(self) -> bool {
        &&& spec_encodings_wf(self.i_field_encodings)
        &&& spec_encodings_wf(self.p_field_encodings)
        &&& spec_encodings_wf(self.s_field_encodings)
        &&& spec_encodings_wf(self.g_field_encodings)
        &&& spec_encodings_wf(self.h_field_encodings)
        &&& self.i_field_predictors.len() == self.p_field_predictors.len()
        &&& spec_payload_width(self.i_field_encodings) == self.i_field_predictors.len()
        &&& spec_payload_width(self.p_field_encodings) == self.p_field_predictors.len()
        &&& spec_payload_width(self.g_field_encodings) == self.g_field_predictors.len()
        &&& spec_i_predictors_wf(self.i_field_predictors)
        &&& spec_p_predictors_wf(self.p_field_predictors)
        &&& spec_g_predictors_wf(self.g_field_predictors, self.i_field_predictors.len())
        &&& self.ip_fields.len() == self.i_field_predictors.len()
        &&& self.g_fields.len() == self.g_field_predictors.len()
        &&& forall|j: int| 0 <= j < self.ip_fields.len() ==> (#[trigger] self.ip_fields[j]).ix == j
    }

    /// The names of the main fields.
    pub open spec fn ip_names(self) -> Seq<Seq<char>> {
        Seq::new(self.ip_fields.len(), |i: int| self.ip_fields[i].name)
    }
}

/// The smaller of two numbers.
pub open spec fn spec_min(a: nat, b: nat) -> nat {
    if a <= b {
        a
    } else {
        b
    }
}

impl BuilderModel {
    /// The number of main fields: as many as names, signedness, I encodings
    /// and P encodings are all there for, which is the length of each of the
    /// lists where they are aligned.
    pub open spec fn ip_count(self) -> nat {
        spec_min(
            spec_min(self.intra.names.len(), self.intra.signedness.len()),
            spec_min(self.intra.encoding.len(), self.predicted.encoding.len()),
        )
    }

    /// The names of the main fields.
    pub open spec fn ip_names(self) -> Seq<Seq<char>> {
        self.intra.names.take(self.ip_count() as int)
    }

    /// The main fields.
    pub open spec fn ip_fields(self) -> Seq<IPFieldModel> {
        Seq::new(
            self.ip_count(),
            |i: int|
                IPFieldModel { name: self.intra.names[i], ix: i, signed: self.intra.signedness[i] },
        )
    }

    /// The predictor of intra frames for field `ix`, if the header names
    /// one that can be had.
    pub open spec fn i_predictor(self, ix: int) -> Option<AnyIPredictor> {
        AnyIPredictor::spec_new(
            self.intra.predictors[ix],
            self.other_headers,
            self.ip_names(),
            ix as usize,
        )
    }

    /// The predictor of predicted frames for field `ix`.
    pub open spec fn p_predictor(self, ix: int) -> Option<AnyPPredictor> {
        AnyPPredictor::spec_new(self.predicted.predictors[ix], self.p_interval->0, ix as usize)
    }

    /// The predictor of GNSS frames for field `ix`.
    pub open spec fn g_predictor(self, ix: int) -> Option<AnyGPredictor> {
        AnyGPredictor::spec_new(
            self.gnss.predictors[ix],
            ix as usize,
            spec_home_index(self.gnss.names[ix]),
            self.ip_names(),
        )
    }

    /// Every predictor that the header names for intra frames can be had.
    pub open spec fn i_predictors_valid(self) -> bool {
        forall|ix: int|
            0 <= ix < self.intra.predictors.len() ==> (#[trigger] self.i_predictor(ix)) is Some
    }

    /// Every predictor that the header names for predicted frames can be
    /// had.
    pub open spec fn p_predictors_valid(self) -> bool {
        forall|ix: int|
            0 <= ix < self.predicted.predictors.len() ==> (#[trigger] self.p_predictor(ix)) is Some
    }

    /// Every predictor that the header names for a GNSS field can be had.
    pub open spec fn g_predictors_valid(self) -> bool {
        forall|ix: int| 0 <= ix < self.gnss.count() ==> (#[trigger] self.g_predictor(ix)) is Some
    }

    /// No home field has a predictor.
    pub open spec fn h_predictors_valid(self) -> bool {
        forall|ix: int|
            0 <= ix < self.home.count() ==> (#[trigger] self.home.predictors[ix])
                == FieldPredictor::Zero
    }

    /// The schema that the lines give, without a look at whether it is fit
    /// to decode with. Where a key has no line, `p_ratio` is 1.
    pub open spec fn schema(self) -> HeaderModel {
        HeaderModel {
            product: self.product->0,
            data_version: self.data_version->0,
            i_interval: self.i_interval->0,
            p_interval: self.p_interval->0,
            p_ratio: match self.p_ratio {
                Some(v) => v,
                None => 1,
            },
            raw_gyro_scale: self.gyro_scale->0,
            loop_time: self.loop_time->0,
            other_headers: self.other_headers,
            ip_fields: self.ip_fields(),
            s_fields: spec_fields(self.slow),
            g_fields: spec_fields(self.gnss),
            h_fields: spec_fields(self.home),
            i_field_encodings: spec_group(self.intra.encoding.take(self.ip_count() as int)),
            i_field_predictors: Seq::new(
                self.intra.predictors.len(),
                |ix: int| self.i_predictor(ix)->0,
            ),
            p_field_encodings: spec_group(self.predicted.encoding.take(self.ip_count() as int)),
            p_field_predictors: Seq::new(
                self.predicted.predictors.len(),
                |ix: int| self.p_predictor(ix)->0,
            ),
            s_field_encodings: spec_group(self.slow.encoding.take(self.slow.count() as int)),
            g_field_encodings: spec_group(self.gnss.encoding.take(self.gnss.count() as int)),
            g_field_predictors: Seq::new(self.gnss.count(), |ix: int| self.g_predictor(ix)->0),
            h_field_encodings: spec_group(self.home.encoding.take(self.home.count() as int)),
            h_field_predictors: Seq::new(
                self.home.count(),
                |ix: int| AnyPPredictor::Zero(NonePredictor { field_ix: ix as usize }),
            ),
        }
    }

    /// The schema that the lines give, or why they give none: first the
    /// lines that must be there, in the order `Product`, `Data version`,
    /// `I interval`, `P interval`, `gyro_scale`, `looptime`; then the lengths
    /// of the lists of each class, which must be one; then the predictors of
    /// the classes I, P, G and H; then the numbers of values that the codecs
    /// of the classes I, P and G yield, which must be those of their fields.
    pub open spec fn spec_build(self) -> Result<HeaderModel, HeaderBuildError> {
        if self.product is None {
            Err(HeaderBuildError::MissingHeader("Product"))
        } else if self.data_version is None {
            Err(HeaderBuildError::MissingHeader("Data version"))
        } else if self.i_interval is None {
            Err(HeaderBuildError::MissingHeader("I interval"))
        } else if self.p_interval is None {
            Err(HeaderBuildError::MissingHeader("P interval"))
        } else if self.gyro_scale is None {
            Err(HeaderBuildError::MissingHeader("gyro_scale"))
        } else if self.loop_time is None {
            Err(HeaderBuildError::MissingHeader("looptime"))
        } else if !self.intra.aligned() {
            Err(HeaderBuildError::InvalidHeader("Field I name"))
        } else if self.predicted.encoding.len() != self.intra.names.len() {
            Err(HeaderBuildError::InvalidHeader("Field P encoding"))
        } else if self.predicted.predictors.len() != self.intra.names.len() {
            Err(HeaderBuildError::InvalidHeader("Field P predictor"))
        } else if !self.slow.aligned() {
            Err(HeaderBuildError::InvalidHeader("Field S name"))
        } else if !self.gnss.aligned() {
            Err(HeaderBuildError::InvalidHeader("Field G name"))
        } else if !self.home.aligned() {
            Err(HeaderBuildError::InvalidHeader("Field H name"))
        } else if !self.i_predictors_valid() {
            Err(HeaderBuildError::InvalidHeader("Field I predictor"))
        } else if !self.p_predictors_valid() {
            Err(HeaderBuildError::InvalidHeader("Field P predictor"))
        } else if !self.g_predictors_valid() {
            Err(HeaderBuildError::InvalidHeader("Field G predictor"))
        } else if !self.h_predictors_valid() {
            Err(HeaderBuildError::InvalidHeader("Field H predictor"))
        } else if spec_payload_width(self.schema().i_field_encodings) != self.ip_count() {
            Err(HeaderBuildError::InvalidHeader("Field I encoding"))
        } else if spec_payload_width(self.schema().p_field_encodings) != self.ip_count() {
            Err(HeaderBuildError::InvalidHeader("Field P encoding"))
        } else if spec_payload_width(self.schema().g_field_encodings) != self.gnss.count() {
            Err(HeaderBuildError::InvalidHeader("Field G encoding"))
        } else {
            Ok(self.schema())
        }
    }
}

/// The fields that the four lists of a class declare.
pub open spec fn spec_fields(lists: FieldListsModel) -> Seq<FieldModel> {
    Seq::new(
        lists.count(),
        |i: int|
            FieldModel {
                name: lists.names[i],
                ix: i,
                signed: lists.signedness[i],
                predictor: lists.predictors[i],
            },
    )
}

/// A schema that is built has its main fields from the names line: one
/// field for each name, in the order of the names and each at its own index,
/// and for each field one predictor of intra frames and one of predicted
/// frames.
pub proof fn lemma_build_fields(builder: BuilderModel)
    requires
        builder.spec_build() is Ok,
    ensures
        ({
            let header = builder.spec_build()->Ok_0;
            &&& header.ip_fields.len() == builder.intra.names.len()
            &&& header.i_field_predictors.len() == builder.intra.names.len()
            &&& header.p_field_predictors.len() == builder.intra.names.len()
            &&& forall|j: int|
                0 <= j < header.ip_fields.len() ==> (#[trigger] header.ip_fields[j]).ix == j
                    && header.ip_fields[j].name == builder.intra.names[j]
        }),
{
}

/// A schema that is built is fit to decode with.
pub proof fn lemma_build_wf(builder: BuilderModel)
    requires
        builder.spec_build() is Ok,
        builder.intra.predictors.len() <= usize::MAX,
        builder.gnss.count() <= usize::MAX,
    ensures
        builder.spec_build()->Ok_0.wf(),
{
    let schema = builder.schema();
    let n = builder.ip_count() as int;
    lemma_group(builder.intra.encoding.take(n));
    lemma_group(builder.predicted.encoding.take(n));
    lemma_group(builder.slow.encoding.take(builder.slow.count() as int));
    lemma_group(builder.gnss.encoding.take(builder.gnss.count() as int));
    lemma_group(builder.home.encoding.take(builder.home.count() as int));
    assert forall|ix: int| 0 <= ix < schema.i_field_predictors.len() implies (
    #[trigger] schema.i_field_predictors[ix]).wf(ix, schema.i_field_predictors.len()) by {
        assert(builder.i_predictor(ix) is Some);
        lemma_index(builder.ip_names(), "motor[0]"@);
    }
    assert forall|ix: int| 0 <= ix < schema.p_field_predictors.len() implies (
    #[trigger] schema.p_field_predictors[ix]).wf(ix, schema.p_field_predictors.len()) by {
        assert(builder.p_predictor(ix) is Some);
    }
    assert forall|ix: int| 0 <= ix < schema.g_field_predictors.len() implies (
    #[trigger] schema.g_field_predictors[ix]).wf(
        ix,
        schema.g_field_predictors.len(),
        schema.i_field_predictors.len(),
    ) by {
        assert(builder.g_predictor(ix) is Some);
        lemma_index(builder.ip_names(), "time"@);
    }
}

fn build_encodings(raws: &Vec<RawFieldEncoding>, n: usize) -> (r: Vec<FieldEncoding>)
    requires
        n <= raws@.len(),
    ensures
        r@ == spec_group(raws@.take(n as int)),
        spec_encodings_wf(r@),
{
    let mut encodings: Vec<FieldEncoding> = Vec::new();
    let mut i: usize = 0;
    assert(raws@.take(0) =~= Seq::<RawFieldEncoding>::empty());
    while i < n
        invariant
            i <= n <= raws@.len(),
            encodings@ == spec_group(raws@.take(i as int)),
            spec_encodings_wf(encodings@),
        decreases n - i,
    {
        proof {
            assert(raws@.take(i + 1).drop_last() =~= raws@.take(i as int));
        }
        add_encoding(&mut encodings, raws[i]);
        i = i + 1;
    }
    encodings
}

fn build_ip_fields(names: &Vec<String>, signedness: &Vec<bool>, n: usize) -> (r: Vec<IPField>)
    requires
        n <= names@.len(),
        n <= signedness@.len(),
    ensures
        r@.len() == n,
        forall|i: int|
            0 <= i < n ==> (#[trigger] r@[i])@ == (IPFieldModel {
                name: names@[i]@,
                ix: i,
                signed: signedness@[i],
            }),
{
    let mut fields: Vec<IPField> = Vec::new();
    let mut ix: usize = 0;
    while ix < n
        invariant
            ix <= n,
            n <= names@.len(),
            n <= signedness@.len(),
            fields@.len() == ix,
            forall|i: int|
                0 <= i < ix ==> (#[trigger] fields@[i])@ == (IPFieldModel {
                    name: names@[i]@,
                    ix: i,
                    signed: signedness@[i],
                }),
        decreases n - ix,
    {
        fields.push(IPField { name: names[ix].clone(), ix, signed: signedness[ix] });
        ix = ix + 1;
    }
    fields
}

/// What the four lists of a class say of field `i`.
pub open spec fn spec_field_at(lists: FieldLists, i: int) -> FieldModel {
    FieldModel {
        name: lists.names@[i]@,
        ix: i,
        signed: lists.signedness@[i],
        predictor: lists.predictors@[i],
    }
}

fn build_slow_fields(lists: &FieldLists) -> (r: Vec<SlowField>)
    ensures
        r@.len() == lists@.count(),
        forall|i: int| 0 <= i < r@.len() ==> (#[trigger] r@[i])@ == spec_field_at(*lists, i),
{
    let n: usize = lists.count();
    let mut fields: Vec<SlowField> = Vec::new();
    let mut ix: usize = 0;
    while ix < n
        invariant
            ix <= n,
            n == lists@.count(),
            n <= lists.names@.len(),
            n <= lists.signedness@.len(),
            n <= lists.predictors@.len(),
            fields@.len() == ix,
            forall|i: int| 0 <= i < ix ==> (#[trigger] fields@[i])@ == spec_field_at(*lists, i),
        decreases n - ix,
    {
        fields.push(
            SlowField {
                name: lists.names[ix].clone(),
                ix,
                signed: lists.signedness[ix],
                predictor: lists.predictors[ix],
            },
        );
        ix = ix + 1;
    }
    fields
}

fn build_gnss_fields(lists: &FieldLists) -> (r: Vec<GNSSField>)
    ensures
        r@.len() == lists@.count(),
        forall|i: int| 0 <= i < r@.len() ==> (#[trigger] r@[i])@ == spec_field_at(*lists, i),
{
    let n: usize = lists.count();
    let mut fields: Vec<GNSSField> = Vec::new();
    let mut ix: usize = 0;
    while ix < n
        invariant
            ix <= n,
            n == lists@.count(),
            n <= lists.names@.len(),
            n <= lists.signedness@.len(),
            n <= lists.predictors@.len(),
            fields@.len() == ix,
            forall|i: int| 0 <= i < ix ==> (#[trigger] fields@[i])@ == spec_field_at(*lists, i),
        decreases n - ix,
    {
        fields.push(
            GNSSField {
                name: lists.names[ix].clone(),
                ix,
                signed: lists.signedness[ix],
                predictor: lists.predictors[ix],
            },
        );
        ix = ix + 1;
    }
    fields
}

fn build_home_fields(lists: &FieldLists) -> (r: Vec<GNSSHomeField>)
    ensures
        r@.len() == lists@.count(),
        forall|i: int| 0 <= i < r@.len() ==> (#[trigger] r@[i])@ == spec_field_at(*lists, i),
{
    let n: usize = lists.count();
    let mut fields: Vec<GNSSHomeField> = Vec::new();
    let mut ix: usize = 0;
    while ix < n
        invariant
            ix <= n,
            n == lists@.count(),
            n <= lists.names@.len(),
            n <= lists.signedness@.len(),
            n <= lists.predictors@.len(),
            fields@.len() == ix,
            forall|i: int| 0 <= i < ix ==> (#[trigger] fields@[i])@ == spec_field_at(*lists, i),
        decreases n - ix,
    {
        fields.push(
            GNSSHomeField {
                name: lists.names[ix].clone(),
                ix,
                signed: lists.signedness[ix],
                predictor: lists.predictors[ix],
            },
        );
        ix = ix + 1;
    }
    fields
}

fn build_i_predictors(
    predictors: &Vec<FieldPredictor>,
    settings: &Vec<(String, String)>,
    ip_fields: &Vec<IPField>,
) -> (r: Option<Vec<AnyIPredictor>>)
    ensures
        r matches Some(v) ==> v@.len() == predictors@.len() && forall|ix: int|
            0 <= ix < v@.len() ==> AnyIPredictor::spec_new(
                predictors@[ix],
                spec_pairs(settings@),
                spec_ip_names(ip_fields@),
                ix as usize,
            ) == Some(#[trigger] v@[ix]),
        r is None ==> exists|ix: int|
            0 <= ix < predictors@.len() && AnyIPredictor::spec_new(
                #[trigger] predictors@[ix],
                spec_pairs(settings@),
                spec_ip_names(ip_fields@),
                ix as usize,
            ) is None,
{
    let mut out: Vec<AnyIPredictor> = Vec::new();
    let mut ix: usize = 0;
    while ix < predictors.len()
        invariant
            ix <= predictors@.len(),
            out@.len() == ix,
            forall|k: int|
                0 <= k < ix ==> AnyIPredictor::spec_new(
                    predictors@[k],
                    spec_pairs(settings@),
                    spec_ip_names(ip_fields@),
                    k as usize,
                ) == Some(#[trigger] out@[k]),
        decreases predictors@.len() - ix,
    {
        match AnyIPredictor::try_new(predictors[ix], settings, ip_fields, ix) {
            None => {
                return None;
            },
            Some(p) => {
                out.push(p);
            },
        }
        ix = ix + 1;
    }
    Some(out)
}

fn build_p_predictors(predictors: &Vec<FieldPredictor>, p_interval: PInterval) -> (r: Option<
    Vec<AnyPPredictor>,
>)
    ensures
        r matches Some(v) ==> v@.len() == predictors@.len() && forall|ix: int|
            0 <= ix < v@.len() ==> AnyPPredictor::spec_new(predictors@[ix], p_interval, ix as usize)
                == Some(#[trigger] v@[ix]),
        r is None ==> exists|ix: int|
            0 <= ix < predictors@.len() && AnyPPredictor::spec_new(
                #[trigger] predictors@[ix],
                p_interval,
                ix as usize,
            ) is None,
{
    let mut out: Vec<AnyPPredictor> = Vec::new();
    let mut ix: usize = 0;
    while ix < predictors.len()
        invariant
            ix <= predictors@.len(),
            out@.len() == ix,
            forall|k: int|
                0 <= k < ix ==> AnyPPredictor::spec_new(predictors@[k], p_interval, k as usize)
                    == Some(#[trigger] out@[k]),
        decreases predictors@.len() - ix,
    {
        match AnyPPredictor::try_new(predictors[ix], p_interval, ix) {
            None => {
                return None;
            },
            Some(p) => {
                out.push(p);
            },
        }
        ix = ix + 1;
    }
    Some(out)
}

fn build_g_predictors(lists: &FieldLists, ip_fields: &Vec<IPField>) -> (r: Option<
    Vec<AnyGPredictor>,
>)
    ensures
        r matches Some(v) ==> v@.len() == lists@.count() && forall|ix: int|
            0 <= ix < v@.len() ==> AnyGPredictor::spec_new(
                lists.predictors@[ix],
                ix as usize,
                spec_home_index(lists.names@[ix]@),
                spec_ip_names(ip_fields@),
            ) == Some(#[trigger] v@[ix]),
        r is None ==> exists|ix: int|
            0 <= ix < lists@.count() && AnyGPredictor::spec_new(
                #[trigger] lists.predictors@[ix],
                ix as usize,
                spec_home_index(lists.names@[ix]@),
                spec_ip_names(ip_fields@),
            ) is None,
{
    let n: usize = lists.count();
    let mut out: Vec<AnyGPredictor> = Vec::new();
    let mut ix: usize = 0;
    while ix < n
        invariant
            ix <= n,
            n == lists@.count(),
            n <= lists.names@.len(),
            n <= lists.predictors@.len(),
            out@.len() == ix,
            forall|k: int|
                0 <= k < ix ==> AnyGPredictor::spec_new(
                    lists.predictors@[k],
                    k as usize,
                    spec_home_index(lists.names@[k]@),
                    spec_ip_names(ip_fields@),
                ) == Some(#[trigger] out@[k]),
        decreases n - ix,
    {
        let sub_ix: usize = home_index(lists.names[ix].as_str());
        match AnyGPredictor::try_new(lists.predictors[ix], ix, sub_ix, ip_fields) {
            None => {
                return None;
            },
            Some(p) => {
                out.push(p);
            },
        }
        ix = ix + 1;
    }
    Some(out)
}

fn build_h_predictors(lists: &FieldLists) -> (r: Option<Vec<AnyPPredictor>>)
    ensures
        r matches Some(v) ==> v@.len() == lists@.count() && (forall|ix: int|
            0 <= ix < v@.len() ==> #[trigger] v@[ix] == AnyPPredictor::Zero(
                NonePredictor { field_ix: ix as usize },
            )) && (forall|ix: int|
            0 <= ix < lists@.count() ==> #[trigger] lists.predictors@[ix] == FieldPredictor::Zero),
        r is None ==> exists|ix: int|
            0 <= ix < lists@.count() && #[trigger] lists.predictors@[ix] != FieldPredictor::Zero,
{
    let n: usize = lists.count();
    let mut out: Vec<AnyPPredictor> = Vec::new();
    let mut ix: usize = 0;
    while ix < n
        invariant
            ix <= n,
            n == lists@.count(),
            n <= lists.predictors@.len(),
            out@.len() == ix,
            forall|k: int|
                0 <= k < ix ==> #[trigger] out@[k] == AnyPPredictor::Zero(
                    NonePredictor { field_ix: k as usize },
                ),
            forall|k: int| 0 <= k < ix ==> #[trigger] lists.predictors@[k] == FieldPredictor::Zero,
        decreases n - ix,
    {
        match lists.predictors[ix] {
            FieldPredictor::Zero => {
                out.push(AnyPPredictor::none(ix));
            },
            _ => {
                return None;
            },
        }
        ix = ix + 1;
    }
    Some(out)
}

impl Header {
    /// The schema is fit to decode with.
    pub open spec fn wf(&self) -> bool {
        self@.wf()
    }

    /// Builds the schema from what the header lines said.
    pub fn try_from(builder: HeaderBuilder) -> (r: Result<Header, HeaderBuildError>)
        ensures
            r matches Ok(header) ==> builder@.spec_build() == Ok::<HeaderModel, HeaderBuildError>(
                header@,
            ) && header.wf(),
            r matches Err(e) ==> builder@.spec_build() == Err::<HeaderModel, HeaderBuildError>(e),
    {
        let ghost model = builder@;
        let product: String = match builder.product {
            Some(v) => v,
            None => {
                return Err(HeaderBuildError::MissingHeader("Product"));
            },
        };
        let data_version: String = match builder.data_version {
            Some(v) => v,
            None => {
                return Err(HeaderBuildError::MissingHeader("Data version"));
            },
        };
        let i_interval: i16 = match builder.i_interval {
            Some(v) => v,
            None => {
                return Err(HeaderBuildError::MissingHeader("I interval"));
            },
        };
        let p_interval: PInterval = match builder.p_interval {
            Some(v) => v,
            None => {
                return Err(HeaderBuildError::MissingHeader("P interval"));
            },
        };
        let p_ratio: u16 = match builder.p_ratio {
            Some(v) => v,
            None => 1,
        };
        let gyro_scale: u32 = match builder.gyro_scale {
            Some(v) => v,
            None => {
                return Err(HeaderBuildError::MissingHeader("gyro_scale"));
            },
        };
        let loop_time: u32 = match builder.loop_time {
            Some(v) => v,
            None => {
                return Err(HeaderBuildError::MissingHeader("looptime"));
            },
        };
        if !builder.intra.aligned() {
            return Err(HeaderBuildError::InvalidHeader("Field I name"));
        }
        assert(model.intra.names.len() == builder.intra.names@.len());
        if builder.predicted.encoding.len() != builder.intra.names.len() {
            return Err(HeaderBuildError::InvalidHeader("Field P encoding"));
        }
        if builder.predicted.predictors.len() != builder.intra.names.len() {
            return Err(HeaderBuildError::InvalidHeader("Field P predictor"));
        }
        if !builder.slow.aligned() {
            return Err(HeaderBuildError::InvalidHeader("Field S name"));
        }
        if !builder.gnss.aligned() {
            return Err(HeaderBuildError::InvalidHeader("Field G name"));
        }
        if !builder.home.aligned() {
            return Err(HeaderBuildError::InvalidHeader("Field H name"));
        }
        let names_and_flags: usize = if builder.intra.names.len()
            <= builder.intra.signedness.len() {
            builder.intra.names.len()
        } else {
            builder.intra.signedness.len()
        };
        let encodings: usize = if builder.intra.encoding.len()
            <= builder.predicted.encoding.len() {
            builder.intra.encoding.len()
        } else {
            builder.predicted.encoding.len()
        };
        let n: usize = if names_and_flags <= encodings {
            names_and_flags
        } else {
            encodings
        };
        assert(n == model.ip_count());
        let ip_fields_in_order = build_ip_fields(
            &builder.intra.names,
            &builder.intra.signedness,
            n,
        );
        assert(spec_ip_names(ip_fields_in_order@) =~= model.ip_names());
        let i_field_encodings = build_encodings(&builder.intra.encoding, n);
        let p_field_encodings = build_encodings(&builder.predicted.encoding, n);
        let i_field_predictors = match build_i_predictors(
            &builder.intra.predictors,
            &builder.other_headers,
            &ip_fields_in_order,
        ) {
            Some(v) => v,
            None => {
                assert(!model.i_predictors_valid()) by {
                    let ix = choose|ix: int|
                        0 <= ix < builder.intra.predictors@.len() && AnyIPredictor::spec_new(
                            #[trigger] builder.intra.predictors@[ix],
                            spec_pairs(builder.other_headers@),
                            spec_ip_names(ip_fields_in_order@),
                            ix as usize,
                        ) is None;
                    assert(model.i_predictor(ix) is None);
                }
                return Err(HeaderBuildError::InvalidHeader("Field I predictor"));
            },
        };
        assert(model.i_predictors_valid()) by {
            assert forall|ix: int| 0 <= ix < model.intra.predictors.len() implies (
            #[trigger] model.i_predictor(ix)) is Some by {
                assert(model.i_predictor(ix) == Some(i_field_predictors@[ix]));
            }
        }
        let p_field_predictors = match build_p_predictors(
            &builder.predicted.predictors,
            p_interval,
        ) {
            Some(v) => v,
            None => {
                assert(!model.p_predictors_valid()) by {
                    let ix = choose|ix: int|
                        0 <= ix < builder.predicted.predictors@.len() && AnyPPredictor::spec_new(
                            #[trigger] builder.predicted.predictors@[ix],
                            p_interval,
                            ix as usize,
                        ) is None;
                    assert(model.p_predictor(ix) is None);
                }
                return Err(HeaderBuildError::InvalidHeader("Field P predictor"));
            },
        };
        assert(model.p_predictors_valid()) by {
            assert forall|ix: int| 0 <= ix < model.predicted.predictors.len() implies (
            #[trigger] model.p_predictor(ix)) is Some by {
                assert(model.p_predictor(ix) == Some(p_field_predictors@[ix]));
            }
        }
        let g_field_predictors = match build_g_predictors(&builder.gnss, &ip_fields_in_order) {
            Some(v) => v,
            None => {
                assert(!model.g_predictors_valid()) by {
                    let ix = choose|ix: int|
                        0 <= ix < builder.gnss@.count() && AnyGPredictor::spec_new(
                            #[trigger] builder.gnss.predictors@[ix],
                            ix as usize,
                            spec_home_index(builder.gnss.names@[ix]@),
                            spec_ip_names(ip_fields_in_order@),
                        ) is None;
                    assert(model.g_predictor(ix) is None);
                }
                return Err(HeaderBuildError::InvalidHeader("Field G predictor"));
            },
        };
        assert(model.g_predictors_valid()) by {
            assert forall|ix: int| 0 <= ix < model.gnss.count() implies (
            #[trigger] model.g_predictor(ix)) is Some by {
                assert(model.g_predictor(ix) == Some(g_field_predictors@[ix]));
            }
        }
        let h_field_predictors = match build_h_predictors(&builder.home) {
            Some(v) => v,
            None => {
                return Err(HeaderBuildError::InvalidHeader("Field H predictor"));
            },
        };
        if !widths_sum_to(&i_field_encodings, n) {
            return Err(HeaderBuildError::InvalidHeader("Field I encoding"));
        }
        if !widths_sum_to(&p_field_encodings, n) {
            return Err(HeaderBuildError::InvalidHeader("Field P encoding"));
        }
        let s_fields_in_order = build_slow_fields(&builder.slow);
        let g_fields_in_order = build_gnss_fields(&builder.gnss);
        let h_fields_in_order = build_home_fields(&builder.home);
        let s_count: usize = builder.slow.count();
        let g_count: usize = builder.gnss.count();
        let h_count: usize = builder.home.count();
        let s_field_encodings = build_encodings(&builder.slow.encoding, s_count);
        let g_field_encodings = build_encodings(&builder.gnss.encoding, g_count);
        let h_field_encodings = build_encodings(&builder.home.encoding, h_count);
        if !widths_sum_to(&g_field_encodings, g_count) {
            return Err(HeaderBuildError::InvalidHeader("Field G encoding"));
        }
        let header = Header {
            product,
            data_version,
            i_interval,
            p_interval,
            p_ratio,
            raw_gyro_scale: gyro_scale,
            loop_time,
            other_headers: builder.other_headers,
            ip_fields_in_order,
            s_fields_in_order,
            g_fields_in_order,
            h_fields_in_order,
            i_field_encodings,
            i_field_predictors,
            p_field_encodings,
            p_field_predictors,
            s_field_encodings,
            g_field_encodings,
            g_field_predictors,
            h_field_encodings,
            h_field_predictors,
        };
        proof {
            let schema = model.schema();
            assert(header@.ip_fields =~= schema.ip_fields);
            assert(header@.s_fields =~= schema.s_fields);
            assert(header@.g_fields =~= schema.g_fields);
            assert(header@.h_fields =~= schema.h_fields);
            assert(header@.i_field_predictors =~= schema.i_field_predictors);
            assert(header@.p_field_predictors =~= schema.p_field_predictors);
            assert(header@.g_field_predictors =~= schema.g_field_predictors);
            assert(header@.h_field_predictors =~= schema.h_field_predictors);
            assert(header@ == schema);
            lemma_build_wf(model);
        }
        Ok(header)
    }
}

/// Why the header of a log could not be read.
#[derive(Clone, Copy, Debug)]
pub enum ParseHeadersError {
    /// The lines were read, and give no schema.
    HeaderBuildError(HeaderBuildError),
    /// A header line has a key that is not valid text, or a value that is
    /// not what its key calls for.
    Malformed,
    /// The input ends before the header does.
    Incomplete,
}

/// The header lines from `pos` on, taken in by `builder`: the place where
/// they end and the builder after them. The lines end before the first
/// bytes that do not start with `H` and a space. (A line is never empty, so
/// that the third case of the first arm does not arise.)
pub open spec fn spec_parse_lines(s: Seq<u8>, pos: int, builder: BuilderModel) -> Result<
    (int, BuilderModel),
    ParseHeadersError,
>
    decreases s.len() - pos,
{
    match spec_parse_header(s, pos) {
        Ok((next, line)) => if pos < next <= s.len() {
            spec_parse_lines(s, next, builder.spec_apply(line))
        } else {
            Err(ParseHeadersError::Malformed)
        },
        Err(Fault::Incomplete) => Err(ParseHeadersError::Incomplete),
        Err(_) => if spec_starts_line(s, pos) {
            Err(ParseHeadersError::Malformed)
        } else {
            Ok((pos, builder))
        },
    }
}

/// The header at the start of the input: where it ends, and the schema
/// that its lines give.
pub open spec fn spec_parse_headers(s: Seq<u8>) -> Result<(int, HeaderModel), ParseHeadersError> {
    match spec_parse_lines(s, 0, BuilderModel::empty()) {
        Err(e) => Err(e),
        Ok((end, builder)) => match builder.spec_build() {
            Err(e) => Err(ParseHeadersError::HeaderBuildError(e)),
            Ok(header) => Ok((end, header)),
        },
    }
}

/// Reads the header of a log and builds its schema.
pub fn parse_headers(input: &[u8]) -> (r: Result<(usize, Header), ParseHeadersError>)
    ensures
        r matches Ok((end, header)) ==> spec_parse_headers(input@) == Ok::<
            (int, HeaderModel),
            ParseHeadersError,
        >((end as int, header@)) && header.wf() && 0 < end <= input@.len(),
        r matches Err(e) ==> spec_parse_headers(input@) == Err::<
            (int, HeaderModel),
            ParseHeadersError,
        >(e),
{
    let mut builder = HeaderBuilder::new();
    let mut pos: usize = 0;
    loop
        invariant
            pos <= input@.len(),
            pos == 0 ==> builder@ == BuilderModel::empty(),
            spec_parse_lines(input@, 0, BuilderModel::empty()) == spec_parse_lines(
                input@,
                pos as int,
                builder@,
            ),
        ensures
            pos <= input@.len(),
            pos == 0 ==> builder@ == BuilderModel::empty(),
            spec_parse_lines(input@, 0, BuilderModel::empty()) == Ok::<
                (int, BuilderModel),
                ParseHeadersError,
            >((pos as int, builder@)),
        decreases input@.len() - pos,
    {
        match parse_header(input, pos) {
            Ok((next, line)) => {
                builder.apply(line);
                pos = next;
            },
            Err(Fault::Incomplete) => {
                return Err(ParseHeadersError::Incomplete);
            },
            Err(_) => {
                if input.len() - pos >= 2 && input[pos] == crate::frame::header::LINE_START
                    && input[pos + 1] == crate::frame::header::LINE_SPACE {
                    return Err(ParseHeadersError::Malformed);
                }
                break ;
            },
        }
    }
    match Header::try_from(builder) {
        Ok(header) => Ok((pos, header)),
        Err(e) => Err(ParseHeadersError::HeaderBuildError(e)),
    }
}

} // verus!
