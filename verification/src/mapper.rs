//! A filter and remapping transform for short channel messages.
use vstd::prelude::*;
use crate::device::{output, Datum, Device, DeviceError, Record};
use crate::globals::WILDCARD;
use crate::text::same_text;

verus! {

pub const CLASS_MAPPER: &'static str = "map";

/// Key of the property under which a mapper keeps its rule.
pub const KEY_RULE: &'static str = "rule";

/// Value of a bound of a rule that constrains nothing.
pub const UNSET: i32 = -1;

/// What a mapper lets through and how it rewrites it.
///
/// A bound of `-1` is unset. The `in_` bounds filter: type and channel must
/// equal the bound, each data byte must lie within its range. The `out_`
/// bounds rewrite: type and channel are replaced, each data byte is scaled
/// into its range. `pull_data1` takes the first output data byte from the
/// second input data byte, `pull_data2` the second from the first.
#[derive(Clone, Copy, Debug, PartialEq, Eq, Structural)]
pub struct Rule {
    pub in_channel: i32,
    pub in_type: i32,
    pub in_data1_min: i32,
    pub in_data1_max: i32,
    pub in_data2_min: i32,
    pub in_data2_max: i32,
    pub out_channel: i32,
    pub out_type: i32,
    pub out_data1_min: i32,
    pub out_data1_max: i32,
    pub out_data2_min: i32,
    pub out_data2_max: i32,
    pub pull_data1: bool,
    pub pull_data2: bool,
}

impl Rule {
    /// The rule that lets every message through unchanged.
    pub open spec fn open_spec() -> Rule {
        Rule {
            in_channel: UNSET,
            in_type: UNSET,
            in_data1_min: UNSET,
            in_data1_max: UNSET,
            in_data2_min: UNSET,
            in_data2_max: UNSET,
            out_channel: UNSET,
            out_type: UNSET,
            out_data1_min: UNSET,
            out_data1_max: UNSET,
            out_data2_min: UNSET,
            out_data2_max: UNSET,
            pull_data1: false,
            pull_data2: false,
        }
    }

    /// The rule that lets every message through unchanged.
    pub fn open() -> (rule: Rule)
        ensures
            rule == Rule::open_spec(),
    {
        Rule {
            in_channel: UNSET,
            in_type: UNSET,
            in_data1_min: UNSET,
            in_data1_max: UNSET,
            in_data2_min: UNSET,
            in_data2_max: UNSET,
            out_channel: UNSET,
            out_type: UNSET,
            out_data1_min: UNSET,
            out_data1_max: UNSET,
            out_data2_min: UNSET,
            out_data2_max: UNSET,
            pull_data1: false,
            pull_data2: false,
        }
    }
}

impl Default for Rule {
    fn default() -> (rule: Rule)
        ensures
            rule == (Rule {
                in_channel: 0,
                in_type: 0,
                in_data1_min: 0,
                in_data1_max: 0,
                in_data2_min: 0,
                in_data2_max: 0,
                out_channel: 0,
                out_type: 0,
                out_data1_min: 0,
                out_data1_max: 0,
                out_data2_min: 0,
                out_data2_max: 0,
                pull_data1: false,
                pull_data2: false,
            }),
    {
        Rule {
            in_channel: 0,
            in_type: 0,
            in_data1_min: 0,
            in_data1_max: 0,
            in_data2_min: 0,
            in_data2_max: 0,
            out_channel: 0,
            out_type: 0,
            out_data1_min: 0,
            out_data1_max: 0,
            out_data2_min: 0,
            out_data2_max: 0,
            pull_data1: false,
            pull_data2: false,
        }
    }
}

/// `value`, on a scale of 0 to 127, carried over to the scale from `min` to
/// `max`, rounded down.
pub open spec fn linear_spec(value: int, min: int, max: int) -> int {
    min + (value * (max - min)) / 127
}

/// The low eight bits of an integer.
pub open spec fn low_byte(x: int) -> u8 {
    (x % 256) as u8
}

/// The larger of two integers.
pub open spec fn larger(a: int, b: int) -> int {
    if a >= b {
        a
    } else {
        b
    }
}

/// The lower end of an output range: the bound, or 0 where it is unset or
/// negative.
pub open spec fn range_floor(lo: i32) -> int {
    larger(lo as int, 0)
}

/// The upper end of an output range: the bound, but not below the lower end.
pub open spec fn range_ceiling(lo: i32, hi: i32) -> int {
    larger(larger(hi as int, 0), range_floor(lo))
}

/// An output data byte before it is cut to eight bits: `own` is the input
/// byte in the same position, `other` the input byte in the other position.
pub open spec fn remap_spec(own: u8, other: u8, lo: i32, hi: i32, pull: bool) -> int {
    let source: int = if pull {
        other as int
    } else {
        own as int
    };
    if lo != UNSET || hi != UNSET {
        linear_spec(source, range_floor(lo), range_ceiling(lo, hi))
    } else {
        source
    }
}

/// The message type of a status byte: its high four bits.
pub open spec fn type_of(status: u8) -> u8 {
    status / 16
}

/// The channel of a status byte: its low four bits.
pub open spec fn channel_of(status: u8) -> u8 {
    status % 16
}

/// The first data byte of a message, 0 where it has none.
pub open spec fn data1_of(bytes: Seq<u8>) -> u8 {
    if bytes.len() > 1 {
        bytes[1]
    } else {
        0
    }
}

/// The second data byte of a message, 0 where it has none.
pub open spec fn data2_of(bytes: Seq<u8>) -> u8 {
    if bytes.len() > 2 {
        bytes[2]
    } else {
        0
    }
}

/// Whether a bound that is set excludes a value from below.
pub open spec fn under(bound: i32, value: u8) -> bool {
    bound != UNSET && bound > value
}

/// Whether a bound that is set excludes a value from above.
pub open spec fn over(bound: i32, value: u8) -> bool {
    bound != UNSET && bound < value
}

/// Whether a bound that is set differs from a value.
pub open spec fn differs(bound: i32, value: u8) -> bool {
    bound != UNSET && bound != value
}

/// Whether a rule lets a message of one to three bytes through.
pub open spec fn passes_spec(rule: Rule, bytes: Seq<u8>) -> bool {
    &&& !differs(rule.in_type, type_of(bytes[0]))
    &&& !differs(rule.in_channel, channel_of(bytes[0]))
    &&& bytes.len() > 1 ==> !under(rule.in_data1_min, bytes[1]) && !over(rule.in_data1_max, bytes[1])
    &&& bytes.len() > 2 ==> !under(rule.in_data2_min, bytes[2]) && !over(rule.in_data2_max, bytes[2])
}

/// The message type after the rule's override.
pub open spec fn out_type_spec(rule: Rule, status: u8) -> u8 {
    if rule.out_type != UNSET {
        low_byte(rule.out_type as int)
    } else {
        type_of(status)
    }
}

/// The channel after the rule's override.
pub open spec fn out_channel_spec(rule: Rule, status: u8) -> u8 {
    if rule.out_channel != UNSET {
        low_byte(rule.out_channel as int)
    } else {
        channel_of(status)
    }
}

/// The status byte that carries the low four bits of `kind` above the low
/// four bits of `channel`.
pub open spec fn status_spec(kind: u8, channel: u8) -> u8 {
    ((kind % 16) * 16 + channel % 16) as u8
}

/// Whether messages of a type carry a single data byte (program change and
/// channel aftertouch).
pub open spec fn single_data(kind: u8) -> bool {
    kind == 0x0C || kind == 0x0D
}

/// The bytes into which a rule rewrites a message of one to three bytes.
pub open spec fn rewrite_spec(rule: Rule, bytes: Seq<u8>) -> Seq<u8> {
    let kind = out_type_spec(rule, bytes[0]);
    let channel = out_channel_spec(rule, bytes[0]);
    let data1 = low_byte(
        remap_spec(
            data1_of(bytes),
            data2_of(bytes),
            rule.out_data1_min,
            rule.out_data1_max,
            rule.pull_data1,
        ),
    );
    let data2 = low_byte(
        remap_spec(
            data2_of(bytes),
            data1_of(bytes),
            rule.out_data2_min,
            rule.out_data2_max,
            rule.pull_data2,
        ),
    );
    if single_data(kind) {
        seq![status_spec(kind, channel), data1]
    } else {
        seq![status_spec(kind, channel), data1, data2]
    }
}

/// What a mapper with the given rule emits for a message: nothing for a
/// message of no or more than three bytes or one that the rule filters out,
/// else the rewritten message on the wildcard port.
pub open spec fn mapper_spec(rule: Rule, bytes: Seq<u8>) -> Seq<(Seq<char>, Seq<u8>)> {
    if 1 <= bytes.len() <= 3 && passes_spec(rule, bytes) {
        seq![(WILDCARD@, rewrite_spec(rule, bytes))]
    } else {
        Seq::empty()
    }
}

/// Scales `value` from the range 0 to 127 into the range from `min` to
/// `max`, rounding down, for every choice of the three.
pub fn map_linear_wide(value: i32, min: i32, max: i32) -> (mapped: i64)
    ensures
        mapped == linear_spec(value as int, min as int, max as int),
{
    let range: i64 = max as i64 - min as i64;
    assert(-0x1_0000_0000 < range < 0x1_0000_0000);
    assert(-0x7fff_ffff_ffff_ffff < (value as int) * (range as int) < 0x7fff_ffff_ffff_ffff)
        by (nonlinear_arith)
        requires
            -0x8000_0000 <= value < 0x8000_0000,
            -0x1_0000_0000 < range < 0x1_0000_0000,
    ;
    let product: i64 = value as i64 * range;
    let quotient: i64 = if product >= 0 {
        product / 127
    } else {
        let positive: i64 = -product;
        if positive % 127 == 0 {
            -(positive / 127)
        } else {
            -(positive / 127) - 1
        }
    };
    min as i64 + quotient
}

/// Scales `value` from the range 0 to 127 into the range from `min` to
/// `max`, rounding down.
pub fn map_linear(value: i32, min: i32, max: i32) -> (mapped: i32)
    requires
        i32::MIN <= linear_spec(value as int, min as int, max as int) <= i32::MAX,
    ensures
        mapped == linear_spec(value as int, min as int, max as int),
{
    map_linear_wide(value, min, max) as i32
}

/// Cuts an integer to its low eight bits.
pub fn cut_to_byte(x: i64) -> (byte: u8)
    ensures
        byte == low_byte(x as int),
{
    let byte: u8 = #[verifier::truncate] (x as u8);
    assert(x as u8 == (x % 256) as u8) by (bit_vector);
    byte
}

/// Computes one output data byte, before it is cut to eight bits.
pub fn remap(own: u8, other: u8, lo: i32, hi: i32, pull: bool) -> (mapped: i64)
    ensures
        mapped == remap_spec(own, other, lo, hi, pull),
{
    let source: u8 = if pull {
        other
    } else {
        own
    };
    if lo != UNSET || hi != UNSET {
        let min: i32 = if lo > 0 {
            lo
        } else {
            0
        };
        let positive: i32 = if hi > 0 {
            hi
        } else {
            0
        };
        let max: i32 = if positive > min {
            positive
        } else {
            min
        };
        map_linear_wide(source as i32, min, max)
    } else {
        source as i64
    }
}

impl Rule {
    /// Whether the rule lets a message through.
    pub fn passes(&self, bytes: &Vec<u8>) -> (pass: bool)
        requires
            1 <= bytes@.len() <= 3,
        ensures
            pass == passes_spec(*self, bytes@),
    {
        let kind: i32 = (bytes[0] / 16) as i32;
        let channel: i32 = (bytes[0] % 16) as i32;
        if self.in_type != UNSET && self.in_type != kind {
            return false;
        }
        if self.in_channel != UNSET && self.in_channel != channel {
            return false;
        }
        if bytes.len() > 1 {
            let data1: i32 = bytes[1] as i32;
            if self.in_data1_min != UNSET && self.in_data1_min > data1 {
                return false;
            }
            if self.in_data1_max != UNSET && self.in_data1_max < data1 {
                return false;
            }
        }
        if bytes.len() > 2 {
            let data2: i32 = bytes[2] as i32;
            if self.in_data2_min != UNSET && self.in_data2_min > data2 {
                return false;
            }
            if self.in_data2_max != UNSET && self.in_data2_max < data2 {
                return false;
            }
        }
        true
    }

    /// Rewrites a message that the rule lets through.
    pub fn rewrite(&self, bytes: &Vec<u8>) -> (out: Vec<u8>)
        requires
            1 <= bytes@.len() <= 3,
        ensures
            out@ == rewrite_spec(*self, bytes@),
    {
        let status = bytes[0];
        let data1: u8 = if bytes.len() > 1 {
            bytes[1]
        } else {
            0
        };
        let data2: u8 = if bytes.len() > 2 {
            bytes[2]
        } else {
            0
        };
        let kind: u8 = if self.out_type != UNSET {
            cut_to_byte(self.out_type as i64)
        } else {
            status / 16
        };
        let channel: u8 = if self.out_channel != UNSET {
            cut_to_byte(self.out_channel as i64)
        } else {
            status % 16
        };
        let out1 = cut_to_byte(remap(data1, data2, self.out_data1_min, self.out_data1_max, self.pull_data1));
        let out2 = cut_to_byte(remap(data2, data1, self.out_data2_min, self.out_data2_max, self.pull_data2));
        let out_status: u8 = (kind % 16) * 16 + channel % 16;
        let mut out: Vec<u8> = Vec::new();
        out.push(out_status);
        out.push(out1);
        if !(kind == 0x0C || kind == 0x0D) {
            out.push(out2);
        }
        assert(out@ =~= rewrite_spec(*self, bytes@));
        out
    }
}

/// A device that filters channel messages and rewrites those it lets
/// through, as its rule says.
#[derive(Debug)]
pub struct Mapper {
    pub id: String,
    pub class: String,
    pub rule: Rule,
}

impl Mapper {
    /// A mapper whose rule lets every message through unchanged.
    pub fn new(id: &str) -> (mapper: Self)
        ensures
            mapper.id@ == id@,
            mapper.class@ == CLASS_MAPPER@,
            mapper.rule == Rule::open_spec(),
    {
        Mapper { id: id.to_owned(), class: CLASS_MAPPER.to_owned(), rule: Rule::open() }
    }
}

impl Device for Mapper {
    fn get_id(&self) -> (id: &str)
        ensures
            id@ == self.id@,
    {
        self.id.as_str()
    }

    fn get_class(&self) -> (class: &str)
        ensures
            class@ == self.class@,
    {
        self.class.as_str()
    }

    fn destroy(&mut self)
        ensures
            *final(self) == *old(self),
    {
    }

    fn serialize(&self) -> (record: Result<Record, DeviceError>)
        ensures
            record matches Ok(r) && r.id@ == self.id@ && r.class@ == self.class@ && r.fields@.len()
                == 1 && r.fields@[0].0@ == KEY_RULE@ && r.fields@[0].1 == Datum::Rule(self.rule),
    {
        let mut fields: Vec<(String, Datum)> = Vec::new();
        fields.push((KEY_RULE.to_owned(), Datum::Rule(self.rule)));
        Ok(Record { id: self.id.clone(), class: self.class.clone(), fields })
    }

    fn init(&mut self) -> (done: Result<(), DeviceError>)
        ensures
            done is Ok,
            *final(self) == *old(self),
    {
        Ok(())
    }

    fn get_data(&mut self, key: String) -> (data: Result<Option<Datum>, String>)
        ensures
            data == Ok::<Option<Datum>, String>(None),
            *final(self) == *old(self),
    {
        Ok(None)
    }

    /// Replaces the rule where the key is `rule` and the value is a rule;
    /// refuses any other value under that key; ignores every other key.
    fn set_data(&mut self, key: String, data: Datum) -> (done: Result<(), String>)
        ensures
            final(self).id == old(self).id,
            final(self).class == old(self).class,
            key@ != KEY_RULE@ ==> done is Ok && final(self).rule == old(self).rule,
            key@ == KEY_RULE@ ==> match data {
                Datum::Rule(rule) => done is Ok && final(self).rule == rule,
                _ => done is Err && final(self).rule == old(self).rule,
            },
    {
        if !same_text(key.as_str(), KEY_RULE) {
            return Ok(());
        }
        match data {
            Datum::Rule(rule) => {
                self.rule = rule;
                Ok(())
            },
            _ => Err("Failed to deserialize rule".to_owned()),
        }
    }

    fn delete_data(&mut self, key: String) -> (done: Result<(), String>)
        ensures
            done is Ok,
            *final(self) == *old(self),
    {
        Ok(())
    }

    fn process(
        &mut self,
        bytes: &Vec<u8>,
        from: &str,
        to: &str,
        from_port: &str,
        to_port: &str,
    ) -> (out: Vec<(String, Vec<u8>)>)
        ensures
            out.deep_view() == mapper_spec(old(self).rule, bytes@),
            *final(self) == *old(self),
    {
        let mut out: Vec<(String, Vec<u8>)> = Vec::new();
        if bytes.len() < 1 || bytes.len() > 3 {
            assert(out.deep_view() =~= mapper_spec(self.rule, bytes@));
            return out;
        }
        if !self.rule.passes(bytes) {
            assert(out.deep_view() =~= mapper_spec(self.rule, bytes@));
            return out;
        }
        out.push(output(WILDCARD, self.rule.rewrite(bytes)));
        assert(out.deep_view() =~= mapper_spec(self.rule, bytes@));
        out
    }
}

/// A rule that only names an input and an output channel moves every
/// message of the input channel to the output channel and leaves the rest of
/// it as it is; it lets no message of another channel through.
pub proof fn lemma_channel_remap(in_channel: i32, out_channel: i32, bytes: Seq<u8>)
    requires
        0 <= in_channel < 16,
        0 <= out_channel < 16,
        1 <= bytes.len() <= 3,
    ensures
        ({
            let rule = Rule { in_channel, out_channel, ..Rule::open_spec() };
            let kind = type_of(bytes[0]);
            let status = (kind * 16 + out_channel) as u8;
            &&& channel_of(bytes[0]) != in_channel ==> mapper_spec(rule, bytes) == Seq::<
                (Seq<char>, Seq<u8>),
            >::empty()
            &&& channel_of(bytes[0]) == in_channel && single_data(kind) ==> mapper_spec(rule, bytes)
                == seq![(WILDCARD@, seq![status, data1_of(bytes)])]
            &&& channel_of(bytes[0]) == in_channel && !single_data(kind) ==> mapper_spec(
                rule,
                bytes,
            ) == seq![(WILDCARD@, seq![status, data1_of(bytes), data2_of(bytes)])]
        }),
{
    let rule = Rule { in_channel, out_channel, ..Rule::open_spec() };
    if channel_of(bytes[0]) == in_channel {
        assert(passes_spec(rule, bytes));
        let kind = type_of(bytes[0]);
        let status = (kind * 16 + out_channel) as u8;
        assert(rewrite_spec(rule, bytes) =~= if single_data(kind) {
            seq![status, data1_of(bytes)]
        } else {
            seq![status, data1_of(bytes), data2_of(bytes)]
        });
    }
}

/// With the first output data byte pulled and its range set, that byte is
/// the second input data byte carried over to the range: the first input
/// data byte has no part in it.
pub proof fn lemma_pulled_data1_ignores_data1(rule: Rule, status: u8, a: u8, b: u8, data2: u8)
    requires
        rule.pull_data1,
    ensures
        rewrite_spec(rule, seq![status, a, data2])[1] == rewrite_spec(rule, seq![status, b, data2])[1],
        rewrite_spec(rule, seq![status, a, data2])[1] == low_byte(
            remap_spec(a, data2, rule.out_data1_min, rule.out_data1_max, true),
        ),
        rule.out_data1_min != UNSET || rule.out_data1_max != UNSET ==> rewrite_spec(
            rule,
            seq![status, a, data2],
        )[1] == low_byte(
            linear_spec(
                data2 as int,
                range_floor(rule.out_data1_min),
                range_ceiling(rule.out_data1_min, rule.out_data1_max),
            ),
        ),
{
}

/// Carried over to the full range from 0 to 127, a value stays what it is.
pub proof fn lemma_full_range_is_identity(value: u8)
    ensures
        linear_spec(value as int, 0, 127) == value,
        low_byte(linear_spec(value as int, 0, 127)) == value,
{
    assert((value as int * 127) / 127 == value as int) by (nonlinear_arith);
}

/// With the first output data byte pulled into the full range from 0 to 127,
/// that byte is the second input data byte.
pub proof fn lemma_pull_data1_full_range(rule: Rule, status: u8, data1: u8, data2: u8)
    requires
        rule.pull_data1,
        rule.out_data1_min == 0,
        rule.out_data1_max == 127,
    ensures
        rewrite_spec(rule, seq![status, data1, data2])[1] == data2,
{
    lemma_full_range_is_identity(data2);
}

} // verus!
