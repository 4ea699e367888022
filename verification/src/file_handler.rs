//! Naming the files that labyrinths are saved to: `laby<N>.txt`, numbered
//! upwards from what a directory already holds.

use vstd::prelude::*;
use vstd::string::StrSliceExecFns;
use vstd::string::StringExecFns;

verus! {

/// The directory that labyrinths are saved to.
pub const LABYRINTH_DIRECTORY: &'static str = "./generated/";

/// A decimal digit.
pub open spec fn is_digit(c: char) -> bool {
    '0' <= c && c <= '9'
}

/// The value of a decimal digit.
pub open spec fn digit_value(c: char) -> nat {
    (c as int - '0' as int) as nat
}

/// The number that a string of decimal digits writes.
pub open spec fn decimal_value(digits: Seq<char>) -> nat
    decreases digits.len(),
{
    if digits.len() == 0 {
        0
    } else {
        decimal_value(digits.drop_last()) * 10 + digit_value(digits.last())
    }
}

/// What a labyrinth's file name starts with.
pub open spec fn name_prefix() -> Seq<char> {
    seq!['l', 'a', 'b', 'y']
}

/// What a labyrinth's file name ends with.
pub open spec fn name_suffix() -> Seq<char> {
    seq!['.', 't', 'x', 't']
}

/// The name is `laby`, one or more decimal digits, and `.txt`.
pub open spec fn is_labyrinth_name(name: Seq<char>) -> bool {
    &&& name.len() > 8
    &&& name.subrange(0, 4) == name_prefix()
    &&& name.subrange(name.len() - 4, name.len() as int) == name_suffix()
    &&& forall|i: int| 4 <= i < name.len() - 4 ==> is_digit(#[trigger] name[i])
}

/// The number in a labyrinth's file name; none for any other name.
pub open spec fn labyrinth_number(name: Seq<char>) -> Option<nat> {
    if is_labyrinth_name(name) {
        Some(decimal_value(name.subrange(4, name.len() - 4)))
    } else {
        None
    }
}

/// The number for the next labyrinth, given the names already taken: one
/// more than the greatest number among them, and zero if there is none.
pub open spec fn next_number(names: Seq<Seq<char>>) -> nat
    decreases names.len(),
{
    if names.len() == 0 {
        0
    } else {
        let before = next_number(names.drop_last());
        match labyrinth_number(names.last()) {
            Some(n) => if n >= before {
                n + 1
            } else {
                before
            },
            None => before,
        }
    }
}

/// How a file name reads.
#[derive(Clone, Copy, PartialEq, Eq, Structural, Debug)]
pub enum NameReading {
    /// Not the name of a labyrinth.
    Other,
    /// The name of the labyrinth with this number.
    Numbered(usize),
    /// The name of a labyrinth whose number is too large to hold.
    TooLarge,
}

/// What `read_name` answers for a name.
pub open spec fn reading_of(name: Seq<char>) -> NameReading {
    match labyrinth_number(name) {
        None => NameReading::Other,
        Some(n) => if n <= usize::MAX {
            NameReading::Numbered(n as usize)
        } else {
            NameReading::TooLarge
        },
    }
}

/// A further digit never makes the number smaller.
proof fn lemma_decimal_push(digits: Seq<char>, c: char)
    requires
        is_digit(c),
    ensures
        decimal_value(digits.push(c)) == decimal_value(digits) * 10 + digit_value(c),
        decimal_value(digits.push(c)) >= decimal_value(digits),
        digit_value(c) <= 9,
{
    assert(digits.push(c).drop_last() =~= digits);
    assert(decimal_value(digits) * 10 >= decimal_value(digits)) by (nonlinear_arith);
}

/// Reads a file name: whether it names a labyrinth, and which.
pub fn read_name(name: &str) -> (reading: NameReading)
    ensures
        reading == reading_of(name@),
{
    let len = name.unicode_len();
    if len <= 8 {
        return NameReading::Other;
    }
    if name.get_char(0) != 'l' || name.get_char(1) != 'a' || name.get_char(2) != 'b' || name.get_char(3)
        != 'y' {
        return NameReading::Other;
    }
    let end = len - 4;
    if name.get_char(end) != '.' || name.get_char(end + 1) != 't' || name.get_char(end + 2) != 'x'
        || name.get_char(end + 3) != 't' {
        return NameReading::Other;
    }
    assert(name@.subrange(0, 4) =~= name_prefix());
    assert(name@.subrange(end as int, len as int) =~= name_suffix());
    let mut value: usize = 0;
    let mut fits = true;
    let mut i: usize = 4;
    while i < end
        invariant
            4 <= i <= end,
            end + 4 == len,
            len == name@.len(),
            forall|j: int| 4 <= j < i ==> is_digit(#[trigger] name@[j]),
            fits ==> value == decimal_value(name@.subrange(4, i as int)),
            !fits ==> decimal_value(name@.subrange(4, i as int)) > usize::MAX,
        decreases end - i,
    {
        let c = name.get_char(i);
        if c < '0' || c > '9' {
            return NameReading::Other;
        }
        proof {
            assert(name@.subrange(4, i + 1) =~= name@.subrange(4, i as int).push(c));
            lemma_decimal_push(name@.subrange(4, i as int), c);
        }
        let digit = (c as u32 - '0' as u32) as usize;
        if fits {
            match value.checked_mul(10) {
                Some(tens) => match tens.checked_add(digit) {
                    Some(more) => {
                        value = more;
                    },
                    None => {
                        fits = false;
                    },
                },
                None => {
                    fits = false;
                },
            }
        }
        i += 1;
    }
    if fits {
        NameReading::Numbered(value)
    } else {
        NameReading::TooLarge
    }
}

/// The names of a list of strings.
pub open spec fn names_view(names: Seq<String>) -> Seq<Seq<char>> {
    names.map_values(|name: String| name@)
}

/// The number for the next labyrinth, given the names of the files that
/// exist, if it fits: one more than the greatest number among the names of
/// labyrinths, and zero if none of the names is a labyrinth's.
pub fn next_labyrinth_id(names: &Vec<String>) -> (id: Option<usize>)
    ensures
        id matches Some(n) ==> n == next_number(names_view(names@)),
        id is None <==> next_number(names_view(names@)) > usize::MAX,
{
    let mut file_id: usize = 0;
    let mut i: usize = 0;
    while i < names.len()
        invariant
            i <= names.len(),
            file_id == next_number(names_view(names@).take(i as int)),
        decreases names.len() - i,
    {
        proof {
            let all = names_view(names@);
            assert(all.take(i + 1).drop_last() =~= all.take(i as int));
            lemma_next_number_grows(all, i + 1);
        }
        match read_name(names[i].as_str()) {
            NameReading::Numbered(found) => {
                if found >= file_id {
                    if found == usize::MAX {
                        return None;
                    }
                    file_id = found + 1;
                }
            },
            NameReading::TooLarge => {
                return None;
            },
            NameReading::Other => {},
        }
        i += 1;
    }
    assert(names_view(names@).take(names@.len() as int) =~= names_view(names@));
    Some(file_id)
}

/// The next number never falls as more names are taken into account.
proof fn lemma_next_number_grows(names: Seq<Seq<char>>, count: int)
    requires
        0 <= count <= names.len(),
    ensures
        next_number(names.take(count)) <= next_number(names),
    decreases names.len() - count,
{
    if count < names.len() {
        assert(names.take(count + 1).drop_last() =~= names.take(count));
        lemma_next_number_grows(names, count + 1);
    } else {
        assert(names.take(count) =~= names);
    }
}

/// The next number is free: it is greater than the number of every
/// labyrinth among the names.
pub proof fn lemma_next_number_is_above(names: Seq<Seq<char>>, i: int)
    requires
        0 <= i < names.len(),
        labyrinth_number(names[i]) is Some,
    ensures
        labyrinth_number(names[i])->0 < next_number(names),
    decreases names.len(),
{
    if i < names.len() - 1 {
        lemma_next_number_is_above(names.drop_last(), i);
    }
}

/// The next number is the least that is free: it is zero, or one more than
/// the number of some labyrinth among the names.
pub proof fn lemma_next_number_is_least(names: Seq<Seq<char>>)
    ensures
        next_number(names) == 0 || exists|i: int|
            0 <= i < names.len() && #[trigger] labyrinth_number(names[i]) == Some(
                (next_number(names) - 1) as nat,
            ),
    decreases names.len(),
{
    if names.len() > 0 {
        let before = next_number(names.drop_last());
        if next_number(names) == before {
            lemma_next_number_is_least(names.drop_last());
            if before != 0 {
                let i = choose|i: int|
                    0 <= i < names.drop_last().len() && #[trigger] labyrinth_number(names.drop_last()[i])
                        == Some((before - 1) as nat);
                assert(names.drop_last()[i] == names[i]);
            }
        } else {
            assert(labyrinth_number(names[names.len() - 1]) == Some((next_number(names) - 1) as nat));
        }
    }
}

/// The decimal digits that write a number, the most significant first.
pub open spec fn decimal_digits(n: nat) -> Seq<char>
    decreases n,
{
    if n < 10 {
        seq![('0' as int + n) as char]
    } else {
        decimal_digits(n / 10).push(('0' as int + n % 10) as char)
    }
}

/// The file name of the labyrinth with the given number.
pub open spec fn file_name(id: nat) -> Seq<char> {
    name_prefix() + decimal_digits(id) + name_suffix()
}

/// The digits of a number are digits, and write that number.
pub proof fn lemma_decimal_digits(n: nat)
    ensures
        decimal_digits(n).len() > 0,
        forall|i: int| 0 <= i < decimal_digits(n).len() ==> is_digit(#[trigger] decimal_digits(n)[i]),
        decimal_value(decimal_digits(n)) == n,
    decreases n,
{
    if n < 10 {
        let only = decimal_digits(n);
        assert(decimal_value(only.drop_last()) == 0);
    } else {
        lemma_decimal_digits(n / 10);
        let c = ('0' as int + n % 10) as char;
        lemma_decimal_push(decimal_digits(n / 10), c);
    }
}

/// The name given to a labyrinth reads back as that labyrinth's: a file
/// saved under the next number raises the next number.
pub proof fn lemma_file_name_reads_back(id: nat)
    ensures
        labyrinth_number(file_name(id)) == Some(id),
{
    lemma_decimal_digits(id);
    let digits = decimal_digits(id);
    let name = file_name(id);
    assert(name.subrange(0, 4) =~= name_prefix());
    assert(name.subrange(name.len() - 4, name.len() as int) =~= name_suffix());
    assert(name.subrange(4, name.len() - 4) =~= digits);
    assert forall|i: int| 4 <= i < name.len() - 4 implies is_digit(#[trigger] name[i]) by {
        assert(name[i] == digits[i - 4]);
    }
}

/// The text of one decimal digit.
fn digit_text(digit: usize) -> (text: &'static str)
    requires
        digit < 10,
    ensures
        text@ == seq![('0' as int + digit) as char],
{
    proof {
        reveal_strlit("0");
        reveal_strlit("1");
        reveal_strlit("2");
        reveal_strlit("3");
        reveal_strlit("4");
        reveal_strlit("5");
        reveal_strlit("6");
        reveal_strlit("7");
        reveal_strlit("8");
        reveal_strlit("9");
    }
    let text = if digit == 0 {
        "0"
    } else if digit == 1 {
        "1"
    } else if digit == 2 {
        "2"
    } else if digit == 3 {
        "3"
    } else if digit == 4 {
        "4"
    } else if digit == 5 {
        "5"
    } else if digit == 6 {
        "6"
    } else if digit == 7 {
        "7"
    } else if digit == 8 {
        "8"
    } else {
        "9"
    };
    text
}

/// Writes a number in decimal at the end of the text.
fn append_decimal(text: &mut String, n: usize)
    ensures
        final(text)@ == old(text)@ + decimal_digits(n as nat),
    decreases n,
{
    if n >= 10 {
        append_decimal(text, n / 10);
    }
    text.append(digit_text(n % 10));
}

/// The file name for the labyrinth with the given number: `laby<N>.txt`.
pub fn labyrinth_file_name(id: usize) -> (name: String)
    ensures
        name@ == file_name(id as nat),
        labyrinth_number(name@) == Some(id as nat),
{
    proof {
        reveal_strlit("laby");
        reveal_strlit(".txt");
        lemma_file_name_reads_back(id as nat);
    }
    let mut name = "laby".to_owned();
    append_decimal(&mut name, id);
    name.append(".txt");
    assert(name@ =~= file_name(id as nat));
    name
}

/// The path of the file for the labyrinth with the given number, in the
/// directory that labyrinths are saved to.
pub fn labyrinth_path(id: usize) -> (path: String)
    ensures
        path@ == LABYRINTH_DIRECTORY@ + file_name(id as nat),
{
    let mut path = LABYRINTH_DIRECTORY.to_owned();
    let name = labyrinth_file_name(id);
    path.append(name.as_str());
    path
}

/// The text that is saved: a heading with the time of saving, then the
/// labyrinth.
pub fn labyrinth_document(timestamp: &str, labyrinth: &str) -> (document: String)
    ensures
        document@ == "Labyrinth. "@ + timestamp@ + seq!['\n'] + labyrinth@,
{
    proof {
        reveal_strlit("\n");
    }
    let mut document = "Labyrinth. ".to_owned();
    document.append(timestamp);
    document.append("\n");
    document.append(labyrinth);
    document
}

} // verus!
