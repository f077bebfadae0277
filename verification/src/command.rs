//! The operator's commands to a client, one per line.
//!
//! `dump` asks for what the client knows. `int all` rings every vector of
//! every remote peer. `int <peer> <vector>` rings one vector of one peer, and
//! `int <peer> all` every vector of that peer. The vector is a decimal number
//! of whatever size: whether the peer has such a vector is for the client to
//! say. White space around a line does not count. Every other line is
//! ignored.

use crate::text::chars_of;
use crate::text::find_char;
use crate::text::index_of;
use crate::text::is_digit;
use crate::text::is_number;
use crate::text::is_whitespace;
use crate::text::lemma_index_of_split;
use crate::text::lemma_number_chars;
use crate::text::lemma_unsigned_of_number;
use crate::text::number_value;
use crate::text::parse_unsigned;
use crate::text::range_is;
use crate::text::range_is_number;
use crate::text::trim;
use crate::text::trim_bounds;
use crate::text::unsigned_of;
use vstd::prelude::*;

verus! {

/// Which vectors of a peer a command addresses.
#[derive(Clone, Copy, Debug, PartialEq, Eq)]
pub enum Target {
    /// The vector with this index.
    Vector(u64),
    /// A vector with an index above all that sixty-four bits can hold, and so
    /// above all that a peer can have.
    Beyond,
    /// Every vector.
    All,
}

/// What a line asks for.
#[derive(Clone, Copy, Debug, PartialEq, Eq)]
pub enum Command {
    /// Show the client's id and every known peer with its vectors.
    Dump,
    /// Ring every vector of every remote peer.
    Broadcast,
    /// Ring vectors of the peer with this id.
    Interrupt { peer_id: u16, target: Target },
    /// Nothing: the line is not a command.
    Ignored,
}

/// The word `dump`.
pub open spec fn word_dump() -> Seq<char> {
    seq!['d', 'u', 'm', 'p']
}

/// The words `int all`.
pub open spec fn word_int_all() -> Seq<char> {
    seq!['i', 'n', 't', ' ', 'a', 'l', 'l']
}

/// The word `int` and the space after it.
pub open spec fn word_int() -> Seq<char> {
    seq!['i', 'n', 't', ' ']
}

/// The word `all`.
pub open spec fn word_all() -> Seq<char> {
    seq!['a', 'l', 'l']
}

/// Which vectors the second argument of `int` addresses, if it addresses
/// any: a decimal number of whatever size is the index of one vector, and the
/// word `all` is every vector.
pub open spec fn target_of(vector: Seq<char>) -> Option<Target> {
    if is_number(vector) {
        if number_value(vector) <= u64::MAX {
            Some(Target::Vector(number_value(vector) as u64))
        } else {
            Some(Target::Beyond)
        }
    } else if vector == word_all() {
        Some(Target::All)
    } else {
        None
    }
}

/// What the two arguments of `int` ask for: `peer` is the text before the
/// first space and `vector` all that follows it. The peer is a number of
/// sixteen bits, as every id is; the vector is a number or the word `all`.
pub open spec fn interrupt_of(peer: Seq<char>, vector: Seq<char>) -> Command {
    match (unsigned_of(peer, 0xffff), target_of(vector)) {
        (Ok(peer_id), Some(target)) => Command::Interrupt { peer_id: peer_id as u16, target },
        _ => Command::Ignored,
    }
}

/// What the line `line` asks for.
pub open spec fn command_of(line: Seq<char>) -> Command {
    let command = trim(line);
    if command == word_dump() {
        Command::Dump
    } else if command == word_int_all() {
        Command::Broadcast
    } else if command.len() >= 4 && command.take(4) == word_int() {
        let suffix = command.skip(4);
        let space = index_of(suffix, ' ');
        if space < suffix.len() {
            interrupt_of(suffix.take(space), suffix.skip(space + 1))
        } else {
            Command::Ignored
        }
    } else {
        Command::Ignored
    }
}

/// Reads one line of the operator. A line that is no command, or whose
/// arguments are malformed, is ignored and never an error. A vector number
/// is read whatever its size.
pub fn parse_command(line: &str) -> (command: Command)
    ensures
        command == command_of(line@),
{
    let chars = chars_of(line);
    let (start, end) = trim_bounds(&chars);
    let ghost trimmed = chars@.subrange(start as int, end as int);
    let dump: Vec<char> = vec!['d', 'u', 'm', 'p'];
    assert(dump@ =~= word_dump());
    if range_is(&chars, start, end, &dump) {
        return Command::Dump;
    }
    let int_all: Vec<char> = vec!['i', 'n', 't', ' ', 'a', 'l', 'l'];
    assert(int_all@ =~= word_int_all());
    if range_is(&chars, start, end, &int_all) {
        return Command::Broadcast;
    }
    if end - start < 4 {
        return Command::Ignored;
    }
    let prefix: Vec<char> = vec!['i', 'n', 't', ' '];
    assert(prefix@ =~= word_int());
    let from = start + 4;
    assert(chars@.subrange(start as int, from as int) =~= trimmed.take(4));
    if !range_is(&chars, start, from, &prefix) {
        return Command::Ignored;
    }
    let ghost suffix = trimmed.skip(4);
    assert(chars@.subrange(from as int, end as int) =~= suffix);
    let space = find_char(&chars, from, end, ' ');
    if space == end {
        return Command::Ignored;
    }
    let ghost peer = suffix.take(space - from);
    let ghost vector = suffix.skip(space - from + 1);
    assert(chars@.subrange(from as int, space as int) =~= peer);
    assert(chars@.subrange(space + 1, end as int) =~= vector);
    let peer_id: u16 = match parse_unsigned(&chars, from, space, 0xffff) {
        Ok(peer_id) => peer_id as u16,
        Err(_) => {
            return Command::Ignored;
        },
    };
    if range_is_number(&chars, space + 1, end) {
        proof {
            lemma_unsigned_of_number(vector, u64::MAX as int);
        }
        match parse_unsigned(&chars, space + 1, end, u64::MAX) {
            Ok(index) => Command::Interrupt { peer_id, target: Target::Vector(index) },
            Err(_) => Command::Interrupt { peer_id, target: Target::Beyond },
        }
    } else {
        let all: Vec<char> = vec!['a', 'l', 'l'];
        assert(all@ =~= word_all());
        if range_is(&chars, space + 1, end, &all) {
            Command::Interrupt { peer_id, target: Target::All }
        } else {
            Command::Ignored
        }
    }
}

/// The word `all` is not a number.
pub proof fn lemma_all_is_no_number()
    ensures
        !is_number(word_all()),
{
    assert(!is_digit(word_all()[0]));
}

/// The line `int <peer> <vector>`, where the peer is a number of sixteen
/// bits and the vector a number of whatever size, addresses that vector of
/// that peer, and the line `int <peer> all` every vector of that peer.
pub proof fn lemma_interrupt_line(peer: Seq<char>, vector: Seq<char>)
    requires
        unsigned_of(peer, 0xffff) is Ok,
        is_number(vector) || vector == word_all(),
    ensures
        target_of(vector) is Some,
        command_of(word_int() + peer + seq![' '] + vector) == (Command::Interrupt {
            peer_id: unsigned_of(peer, 0xffff)->Ok_0 as u16,
            target: target_of(vector)->0,
        }),
        is_number(vector) && number_value(vector) <= u64::MAX ==> target_of(vector) == Some(
            Target::Vector(number_value(vector) as u64),
        ),
        is_number(vector) && number_value(vector) > u64::MAX ==> target_of(vector) == Some(
            Target::Beyond,
        ),
        vector == word_all() ==> target_of(vector) == Some(Target::All),
{
    let line = word_int() + peer + seq![' '] + vector;
    lemma_number_chars(peer, 0xffff);
    lemma_all_is_no_number();
    if vector != word_all() {
        let digits = crate::text::unsigned_digits(vector);
        assert(is_digit(digits[digits.len() - 1]));
        assert(vector.last() == digits[digits.len() - 1]);
    }
    assert(vector.len() > 0);
    assert(line[0] == 'i');
    assert(line.last() == vector.last());
    assert(!is_whitespace(line.last()));
    assert(trim(line) == line);
    assert(line[4] == peer[0]);
    assert(line != word_dump());
    assert(line != word_int_all());
    assert(line.take(4) =~= word_int());
    let suffix = line.skip(4);
    assert(suffix =~= peer + seq![' '] + vector);
    assert forall|i: int| 0 <= i < peer.len() implies peer[i] != ' ' by {
        assert(is_digit(peer[i]) || peer[i] == '+');
    }
    lemma_index_of_split(peer, ' ', vector);
    assert(suffix.take(peer.len() as int) =~= peer);
    assert(suffix.skip(peer.len() as int + 1) =~= vector);
}

} // verus!
