//! The names under which devices that stand for hardware ports are
//! registered, and the search for the port that such a device stands for.
use vstd::prelude::*;
use crate::globals::{PREFIX_I, PREFIX_INPUT, PREFIX_O, PREFIX_OUTPUT, PREFIX_VI, PREFIX_VO};
use crate::text::{join, same_text, starts_with};

verus! {

/// What matches any run of characters in a pattern.
pub const ANY_RUN: &'static str = ".*";

/// What anchors a pattern at the start of a name.
pub const AT_START: &'static str = "^";

/// What anchors a pattern at the end of a name.
pub const AT_END: &'static str = "$";

/// The names of the ports that devices may be bound to.
#[derive(Debug)]
pub struct MidiPorts {
    pub inputs: Vec<String>,
    pub outputs: Vec<String>,
}

/// `name` with `prefix` before it, unless it begins with the prefix already.
pub open spec fn prefixed_spec(name: Seq<char>, prefix: Seq<char>) -> Seq<char> {
    if prefix.is_prefix_of(name) {
        name
    } else {
        prefix + name
    }
}

/// `name` with `prefix` before it, unless it begins with the prefix already.
pub fn prefixed(name: &str, prefix: &str) -> (id: String)
    ensures
        id@ == prefixed_spec(name@, prefix@),
{
    if starts_with(name, prefix) {
        name.to_owned()
    } else {
        join(prefix, name)
    }
}

/// The id of the device that listens to the input port of the given name.
pub fn input_id(name: &str) -> (id: String)
    ensures
        id@ == prefixed_spec(name@, PREFIX_INPUT@),
{
    prefixed(name, PREFIX_INPUT)
}

/// The start of the id of a device that sends to the output port of the
/// given name.
pub fn output_id(name: &str) -> (id: String)
    ensures
        id@ == prefixed_spec(name@, PREFIX_OUTPUT@),
{
    prefixed(name, PREFIX_OUTPUT)
}

/// The name of the client through which the virtual cable of the given id
/// listens.
pub fn virtual_in_id(id: &str) -> (name: String)
    ensures
        name@ == PREFIX_I@ + id@,
{
    join(PREFIX_I, id)
}

/// The name of the client through which the virtual cable of the given id
/// sends.
pub fn virtual_out_id(id: &str) -> (name: String)
    ensures
        name@ == PREFIX_O@ + id@,
{
    join(PREFIX_O, id)
}

/// The pattern for the names of ports that begin with `prefix` and hold `id`
/// somewhere after it.
pub fn prefixed_port_pattern(prefix: &str, id: &str) -> (pattern: String)
    ensures
        pattern@ == AT_START@ + prefix@ + ANY_RUN@ + id@ + ANY_RUN@,
{
    AT_START.to_owned().concat(prefix).concat(ANY_RUN).concat(id).concat(ANY_RUN)
}

/// The pattern for the names of ports that are `id` from start to end.
pub fn whole_port_pattern(id: &str) -> (pattern: String)
    ensures
        pattern@ == AT_START@ + id@ + AT_END@,
{
    AT_START.to_owned().concat(id).concat(AT_END)
}

/// Whether a port of the given name was made by a device of this kind of
/// graph for sending, so that no device should listen to it.
pub open spec fn is_own_output(name: Seq<char>) -> bool {
    PREFIX_OUTPUT@.is_prefix_of(name) || PREFIX_O@.is_prefix_of(name) || PREFIX_VO@.is_prefix_of(
        name,
    )
}

/// Whether a port of the given name was made by a device of this kind of
/// graph for listening, so that no device should send to it.
pub open spec fn is_own_input(name: Seq<char>) -> bool {
    PREFIX_INPUT@.is_prefix_of(name) || PREFIX_I@.is_prefix_of(name) || PREFIX_VI@.is_prefix_of(
        name,
    )
}

/// The names among `names`, in order, that are not the graph's own: those of
/// its own outputs where `listening`, those of its own inputs otherwise.
pub open spec fn foreign_names(names: Seq<String>, listening: bool) -> Seq<Seq<char>>
    decreases names.len(),
{
    if names.len() == 0 {
        Seq::empty()
    } else {
        let before = foreign_names(names.drop_last(), listening);
        let own = if listening {
            is_own_output(names.last()@)
        } else {
            is_own_input(names.last()@)
        };
        if own {
            before
        } else {
            before.push(names.last()@)
        }
    }
}

/// Whether a port of the given name is one of the graph's own outputs.
pub fn own_output(name: &str) -> (own: bool)
    ensures
        own == is_own_output(name@),
{
    starts_with(name, PREFIX_OUTPUT) || starts_with(name, PREFIX_O) || starts_with(name, PREFIX_VO)
}

/// Whether a port of the given name is one of the graph's own inputs.
pub fn own_input(name: &str) -> (own: bool)
    ensures
        own == is_own_input(name@),
{
    starts_with(name, PREFIX_INPUT) || starts_with(name, PREFIX_I) || starts_with(name, PREFIX_VI)
}

/// Keeps the names that are not the graph's own.
pub fn foreign(names: &Vec<String>, listening: bool) -> (kept: Vec<String>)
    ensures
        kept.deep_view() == foreign_names(names@, listening),
{
    let mut kept: Vec<String> = Vec::new();
    let n = names.len();
    let mut i: usize = 0;
    assert(names@.take(0) =~= Seq::empty());
    assert(kept.deep_view() =~= Seq::empty());
    while i < n
        invariant
            n == names@.len(),
            i <= n,
            kept.deep_view() == foreign_names(names@.take(i as int), listening),
        decreases n - i,
    {
        let name = names[i].as_str();
        assert(names@.take(i + 1).drop_last() =~= names@.take(i as int));
        assert(names@.take(i + 1).last() == names@[i as int]);
        let own = if listening {
            own_output(name)
        } else {
            own_input(name)
        };
        if !own {
            let ghost before = kept.deep_view();
            kept.push(name.to_owned());
            assert(kept.deep_view() =~= before.push(name@));
        }
        i += 1;
    }
    assert(names@.take(n as int) =~= names@);
    kept
}

/// The ports that devices may be bound to, given the names of all ports:
/// every input that is not one of the graph's own outputs, and every output
/// that is not one of the graph's own inputs.
pub fn valid_midi_ports(inputs: &Vec<String>, outputs: &Vec<String>) -> (ports: MidiPorts)
    ensures
        ports.inputs.deep_view() == foreign_names(inputs@, true),
        ports.outputs.deep_view() == foreign_names(outputs@, false),
{
    MidiPorts { inputs: foreign(inputs, true), outputs: foreign(outputs, false) }
}

/// How many of `names` are `wanted`.
pub open spec fn occurrences(names: Seq<String>, wanted: Seq<char>) -> nat
    decreases names.len(),
{
    if names.len() == 0 {
        0
    } else {
        let before = occurrences(names.drop_last(), wanted);
        if names.last()@ == wanted {
            before + 1
        } else {
            before
        }
    }
}

/// Whether `i` is the place of the `instance`-th of `names` that is
/// `wanted`, counted from 1.
pub open spec fn is_instance(names: Seq<String>, wanted: Seq<char>, instance: nat, i: int) -> bool {
    &&& 0 <= i < names.len()
    &&& names[i]@ == wanted
    &&& occurrences(names.take(i), wanted) + 1 == instance
}

/// The place of the `instance`-th of `names` that is `wanted`, counted from
/// 1; nothing where `wanted` occurs less often, or for the instance 0.
pub fn find_port_instance(names: &Vec<String>, wanted: &str, instance: usize) -> (place: Option<
    usize,
>)
    ensures
        match place {
            Some(i) => is_instance(names@, wanted@, instance as nat, i as int),
            None => instance == 0 || occurrences(names@, wanted@) < instance,
        },
{
    if instance == 0 {
        return None;
    }
    let n = names.len();
    let mut count: usize = 0;
    let mut i: usize = 0;
    assert(names@.take(0) =~= Seq::empty());
    while i < n
        invariant
            n == names@.len(),
            i <= n,
            count < instance,
            count == occurrences(names@.take(i as int), wanted@),
        decreases n - i,
    {
        assert(names@.take(i + 1).drop_last() =~= names@.take(i as int));
        assert(names@.take(i + 1).last() == names@[i as int]);
        if same_text(names[i].as_str(), wanted) {
            count += 1;
            if count == instance {
                return Some(i);
            }
        }
        i += 1;
    }
    assert(names@.take(n as int) =~= names@);
    None
}

/// The place of the first of `names` that is `wanted`.
pub fn find_port(names: &Vec<String>, wanted: &str) -> (place: Option<usize>)
    ensures
        match place {
            Some(i) => is_instance(names@, wanted@, 1, i as int),
            None => occurrences(names@, wanted@) == 0,
        },
{
    find_port_instance(names, wanted, 1)
}

/// The low eight bits of each of the given numbers.
pub fn low_bytes(numbers: &Vec<u64>) -> (bytes: Vec<u8>)
    ensures
        bytes@.len() == numbers@.len(),
        forall|i: int| 0 <= i < numbers@.len() ==> bytes@[i] == numbers@[i] % 256,
{
    let mut bytes: Vec<u8> = Vec::new();
    let n = numbers.len();
    let mut i: usize = 0;
    while i < n
        invariant
            n == numbers@.len(),
            i <= n,
            bytes@.len() == i,
            forall|j: int| 0 <= j < i ==> bytes@[j] == numbers@[j] % 256,
        decreases n - i,
    {
        bytes.push((numbers[i] % 256) as u8);
        i += 1;
    }
    bytes
}

/// Whether a character is a decimal digit.
pub open spec fn is_digit(c: char) -> bool {
    48 <= c as u32 <= 57
}

/// Whether a text holds nothing but decimal digits.
pub open spec fn all_digits(text: Seq<char>) -> bool {
    forall|i: int| 0 <= i < text.len() ==> is_digit(#[trigger] text[i])
}

/// The number that a text of decimal digits writes.
pub open spec fn number_spec(digits: Seq<char>) -> nat
    decreases digits.len(),
{
    if digits.len() == 0 {
        0
    } else {
        number_spec(digits.drop_last()) * 10 + (digits.last() as u32 - 48) as nat
    }
}

/// A text without the plus sign that it may begin with.
pub open spec fn unsigned_part(text: Seq<char>) -> Seq<char> {
    if text.len() > 0 && text[0] == '+' {
        text.drop_first()
    } else {
        text
    }
}

/// The number that a text writes: one or more decimal digits, after a plus
/// sign or none, that give a number of machine size. Nothing for any other
/// text.
pub open spec fn instance_spec(text: Seq<char>) -> Option<usize> {
    let digits = unsigned_part(text);
    if digits.len() > 0 && all_digits(digits) && number_spec(digits) <= usize::MAX {
        Some(number_spec(digits) as usize)
    } else {
        None
    }
}

/// The number that the beginning of a text of digits writes is not above
/// the number that the whole text writes.
pub proof fn lemma_number_grows(digits: Seq<char>, i: int)
    requires
        all_digits(digits),
        0 <= i <= digits.len(),
    ensures
        number_spec(digits.take(i)) <= number_spec(digits),
    decreases digits.len() - i,
{
    if i < digits.len() {
        lemma_number_grows(digits, i + 1);
        assert(digits.take(i + 1).drop_last() =~= digits.take(i));
        assert(is_digit(digits[i]));
    } else {
        assert(digits.take(i) =~= digits);
    }
}

/// Reads the number that a text writes.
pub fn parse_instance(text: &str) -> (number: Option<usize>)
    ensures
        number == instance_spec(text@),
{
    let n = text.unicode_len();
    let start: usize = if n > 0 && text.get_char(0) == '+' {
        1
    } else {
        0
    };
    let ghost digits = unsigned_part(text@);
    assert(digits =~= text@.subrange(start as int, n as int));
    if start == n {
        return None;
    }
    let mut value: usize = 0;
    let mut i: usize = start;
    assert(digits.take(0) =~= Seq::<char>::empty());
    while i < n
        invariant
            n == text@.len(),
            start <= i <= n,
            start < n,
            digits == unsigned_part(text@),
            digits == text@.subrange(start as int, n as int),
            all_digits(digits.take(i - start)),
            value == number_spec(digits.take(i - start)),
        decreases n - i,
    {
        let c = text.get_char(i);
        let code: u32 = c as u32;
        assert(digits[i - start] == c);
        assert(digits.take(i - start + 1).drop_last() =~= digits.take(i - start));
        assert(digits.take(i - start + 1).last() == c);
        if code < 48 || code > 57 {
            assert(!is_digit(digits[i - start]));
            return None;
        }
        let d: usize = (code - 48) as usize;
        if value > (usize::MAX - d) / 10 {
            proof {
                if all_digits(digits) {
                    lemma_number_grows(digits, i - start + 1);
                    assert(number_spec(digits.take(i - start + 1)) == value * 10 + d);
                }
            }
            return None;
        }
        value = value * 10 + d;
        assert forall|j: int| 0 <= j < i - start + 1 implies is_digit(
            #[trigger] digits.take(i - start + 1)[j],
        ) by {
            if j < i - start {
                assert(digits.take(i - start)[j] == digits.take(i - start + 1)[j]);
            }
        }
        i += 1;
    }
    assert(digits.take(n - start) =~= digits);
    Some(value)
}

/// Whether `separator` stands in `text` at place `i`.
pub open spec fn occurs_at(text: Seq<char>, separator: Seq<char>, i: int) -> bool {
    0 <= i && i + separator.len() <= text.len() && text.subrange(i, i + separator.len())
        == separator
}

/// Whether `i` is the last place at which `separator` stands in `text`.
pub open spec fn is_last_occurrence(text: Seq<char>, separator: Seq<char>, i: int) -> bool {
    occurs_at(text, separator, i) && forall|j: int| i < j ==> !occurs_at(text, separator, j)
}

/// The last place at which `separator` stands in `text`.
pub fn last_occurrence(text: &str, separator: &str) -> (place: Option<usize>)
    ensures
        match place {
            Some(i) => is_last_occurrence(text@, separator@, i as int),
            None => forall|j: int| !occurs_at(text@, separator@, j),
        },
{
    let n = text.unicode_len();
    let m = separator.unicode_len();
    if m > n {
        return None;
    }
    let mut i: usize = n - m;
    loop
        invariant
            n == text@.len(),
            m == separator@.len(),
            m <= n,
            i <= n - m,
            forall|j: int| i < j ==> !occurs_at(text@, separator@, j),
        decreases i,
    {
        if same_text(text.substring_char(i, i + m), separator) {
            return Some(i);
        }
        if i == 0 {
            return None;
        }
        i -= 1;
    }
}

/// The name and the number in the id of an output: what stands before the
/// last separator and the number that follows it, where a number follows
/// it; else the whole id and the number 1.
pub open spec fn split_device_id_spec(id: Seq<char>, separator: Seq<char>) -> (Seq<char>, usize) {
    if exists|i: int| is_last_occurrence(id, separator, i) {
        let i = choose|i: int| is_last_occurrence(id, separator, i);
        match instance_spec(id.subrange(i + separator.len(), id.len() as int)) {
            Some(n) => (id.subrange(0, i), n),
            None => (id, 1),
        }
    } else {
        (id, 1)
    }
}

/// Whether the id of an output ends in a separator and a number.
pub open spec fn has_instance(id: Seq<char>, separator: Seq<char>) -> bool {
    exists|i: int|
        is_last_occurrence(id, separator, i) && instance_spec(
            id.subrange(i + separator.len(), id.len() as int),
        ) is Some
}

/// The last occurrence of a separator is the one that `choose` finds.
pub proof fn lemma_last_occurrence_unique(text: Seq<char>, separator: Seq<char>, i: int)
    requires
        is_last_occurrence(text, separator, i),
    ensures
        (choose|k: int| is_last_occurrence(text, separator, k)) == i,
{
    let k = choose|k: int| is_last_occurrence(text, separator, k);
    if k < i {
        assert(!occurs_at(text, separator, i));
    }
    if i < k {
        assert(!occurs_at(text, separator, k));
    }
}

/// The number that follows the last separator in an id, where one does.
fn instance_of(id: &str, separator: &str) -> (found: Option<(usize, usize)>)
    ensures
        match found {
            Some((i, n)) => is_last_occurrence(id@, separator@, i as int) && instance_spec(
                id@.subrange(i + separator@.len(), id@.len() as int),
            ) == Some(n),
            None => !has_instance(id@, separator@),
        },
{
    match last_occurrence(id, separator) {
        Some(i) => {
            proof {
                lemma_last_occurrence_unique(id@, separator@, i as int);
            }
            let m = separator.unicode_len();
            let n = id.unicode_len();
            assert(i + m <= n);
            let tail = id.substring_char(i + m, n);
            match parse_instance(tail) {
                Some(n) => Some((i, n)),
                None => {
                    assert forall|k: int| is_last_occurrence(id@, separator@, k) implies k == i by {
                        lemma_last_occurrence_unique(id@, separator@, k);
                    }
                    None
                },
            }
        },
        None => None,
    }
}

/// Splits the id of an output, without its prefix, into the name of the
/// port and the number of the port among the ports of that name.
pub fn split_device_id<'a>(id: &'a str, separator: &str) -> (parts: (&'a str, usize))
    ensures
        (parts.0@, parts.1) == split_device_id_spec(id@, separator@),
{
    match instance_of(id, separator) {
        Some((i, n)) => {
            proof {
                lemma_last_occurrence_unique(id@, separator@, i as int);
            }
            (id.substring_char(0, i), n)
        },
        None => {
            proof {
                if exists|i: int| is_last_occurrence(id@, separator@, i) {
                    let i = choose|i: int| is_last_occurrence(id@, separator@, i);
                    assert(instance_spec(
                        id@.subrange(i + separator@.len(), id@.len() as int),
                    ) is None);
                }
            }
            (id, 1)
        },
    }
}

/// An id with the number 1 after it, unless it ends in a number already.
pub open spec fn numbered_spec(id: Seq<char>, separator: Seq<char>) -> Seq<char> {
    if has_instance(id, separator) {
        id
    } else {
        id + separator + "1"@
    }
}

/// The id of the device that sends to the output port of the given name, or
/// to the port that a given id names: with the prefix of outputs before it
/// and the number of the port after it, each unless it is there already.
pub fn numbered_output_id(name: &str, separator: &str) -> (id: String)
    ensures
        id@ == numbered_spec(prefixed_spec(name@, PREFIX_OUTPUT@), separator@),
{
    let id = output_id(name);
    match instance_of(id.as_str(), separator) {
        Some(_) => id,
        None => id.concat(separator).concat("1"),
    }
}

} // verus!
