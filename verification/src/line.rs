//! The grammar of input and output lines: fields separated by whitespace.

use crate::error::{Error, Field};
use vstd::prelude::*;
use vstd::string::{StrSliceExecFns, StringExecFns};

verus! {

/// Whether a character separates fields: whether it has the Unicode
/// property `White_Space`. These are the ASCII space and the controls from
/// tab to carriage return, next line, no-break space, ogham space mark, the
/// spaces from en quad to hair space, line and paragraph separator, narrow
/// no-break space, medium mathematical space and ideographic space.
pub open spec fn is_space(c: char) -> bool {
    let u = c as u32;
    ||| 0x09 <= u <= 0x0d
    ||| u == 0x20
    ||| u == 0x85
    ||| u == 0xa0
    ||| u == 0x1680
    ||| 0x2000 <= u <= 0x200a
    ||| u == 0x2028
    ||| u == 0x2029
    ||| u == 0x202f
    ||| u == 0x205f
    ||| u == 0x3000
}

/// Whether a character separates fields.
pub fn separates(c: char) -> (b: bool)
    ensures
        b == is_space(c),
{
    let u = c as u32;
    (0x09 <= u && u <= 0x0d) || u == 0x20 || u == 0x85 || u == 0xa0 || u == 0x1680 || (0x2000 <= u
        && u <= 0x200a) || u == 0x2028 || u == 0x2029 || u == 0x202f || u == 0x205f || u == 0x3000
}

/// The fields of a line: its maximal runs of characters that are not
/// whitespace, in order.
pub open spec fn fields_of(line: Seq<char>) -> Seq<Seq<char>>
    decreases line.len(),
{
    if line.len() == 0 {
        Seq::empty()
    } else {
        let before = fields_of(line.drop_last());
        let c = line.last();
        if is_space(c) {
            before
        } else if line.len() >= 2 && !is_space(line[line.len() - 2]) {
            before.drop_last().push(before.last().push(c))
        } else {
            before.push(seq![c])
        }
    }
}

/// The texts of a list of string slices.
pub open spec fn texts(items: Seq<&str>) -> Seq<Seq<char>> {
    Seq::new(items.len(), |i: int| items[i]@)
}

/// Splits a line into its fields.
pub fn split_fields(line: &str) -> (fields: Vec<&str>)
    ensures
        texts(fields@) == fields_of(line@),
{
    let n = line.unicode_len();
    let mut fields: Vec<&str> = Vec::new();
    let mut start: usize = 0;
    let mut inside = false;
    let mut i: usize = 0;
    assert(line@.take(0) =~= Seq::<char>::empty());
    assert(texts(fields@) =~= Seq::<Seq<char>>::empty());
    for c in it: line.chars()
        invariant
            n == line@.len(),
            i == it.index(),
            it.seq() == line@,
            i <= n,
            inside ==> start < i && !is_space(line@[i - 1]) && fields_of(line@.take(i as int))
                == texts(fields@).push(line@.subrange(start as int, i as int)),
            !inside ==> (i == 0 || is_space(line@[i - 1])) && fields_of(line@.take(i as int))
                == texts(fields@),
    {
        let ghost seen = line@.take(i as int);
        let ghost next = line@.take(i + 1);
        assert(next.drop_last() =~= seen);
        assert(next.last() == c);
        if separates(c) {
            if inside {
                let field = line.substring_char(start, i);
                assert(texts(fields@.push(field)) =~= texts(fields@).push(field@));
                fields.push(field);
                inside = false;
            }
        } else if inside {
            assert(line@.subrange(start as int, i as int).push(c) =~= line@.subrange(
                start as int,
                i + 1,
            ));
            assert(texts(fields@).push(line@.subrange(start as int, i as int)).drop_last()
                =~= texts(fields@));
        } else {
            assert(seq![c] =~= line@.subrange(i as int, i + 1));
            start = i;
            inside = true;
        }
        i += 1;
    }
    assert(line@.take(i as int) =~= line@);
    if inside {
        let field = line.substring_char(start, i);
        assert(texts(fields@.push(field)) =~= texts(fields@).push(field@));
        fields.push(field);
    }
    fields
}

/// An input line taken apart: `<name> <timestamp> <code> <value>...`.
#[derive(Debug)]
pub struct LineParts<'a> {
    pub name: &'a str,
    pub timestamp: &'a str,
    pub code: &'a str,
    pub values: Vec<&'a str>,
}

/// The texts of the parts of an input line.
pub struct LineView {
    pub name: Seq<char>,
    pub timestamp: Seq<char>,
    pub code: Seq<char>,
    pub values: Seq<Seq<char>>,
}

impl<'a> View for LineParts<'a> {
    type V = LineView;

    open spec fn view(&self) -> LineView {
        LineView {
            name: self.name@,
            timestamp: self.timestamp@,
            code: self.code@,
            values: texts(self.values@),
        }
    }
}

/// The parts that the fields of an input line make up: the first three are
/// name, timestamp and type-code string, the rest are value tokens.
pub open spec fn parts_of(fields: Seq<Seq<char>>) -> Result<LineView, Error> {
    if fields.len() == 0 {
        Err(Error::MissingField(Field::Name))
    } else if fields.len() == 1 {
        Err(Error::MissingField(Field::Timestamp))
    } else if fields.len() == 2 {
        Err(Error::MissingField(Field::Code))
    } else {
        Ok(
            LineView {
                name: fields[0],
                timestamp: fields[1],
                code: fields[2],
                values: fields.skip(3),
            },
        )
    }
}

/// Takes an input line apart.
pub fn parse_line(line: &str) -> (r: Result<LineParts<'_>, Error>)
    ensures
        match r {
            Ok(parts) => parts_of(fields_of(line@)) == Ok::<LineView, Error>(parts@),
            Err(e) => parts_of(fields_of(line@)) == Err::<LineView, Error>(e),
        },
{
    let fields = split_fields(line);
    if fields.len() == 0 {
        return Err(Error::MissingField(Field::Name));
    }
    if fields.len() == 1 {
        return Err(Error::MissingField(Field::Timestamp));
    }
    if fields.len() == 2 {
        return Err(Error::MissingField(Field::Code));
    }
    let mut values: Vec<&str> = Vec::new();
    let mut i: usize = 3;
    while i < fields.len()
        invariant
            3 <= i <= fields@.len(),
            values@ == fields@.subrange(3, i as int),
        decreases fields@.len() - i,
    {
        values.push(fields[i]);
        assert(values@ =~= fields@.subrange(3, i + 1));
        i += 1;
    }
    let parts = LineParts { name: fields[0], timestamp: fields[1], code: fields[2], values };
    assert(texts(fields@)[0] == fields@[0]@);
    assert(texts(fields@)[1] == fields@[1]@);
    assert(texts(fields@)[2] == fields@[2]@);
    assert(parts@.values =~= texts(fields@).skip(3));
    Ok(parts)
}

/// The given texts, each after one space.
pub open spec fn spaced(fields: Seq<Seq<char>>) -> Seq<char>
    decreases fields.len(),
{
    if fields.len() == 0 {
        Seq::empty()
    } else {
        spaced(fields.drop_last()) + seq![' '] + fields.last()
    }
}

/// The output line of a data point: name, timestamp and value texts, one
/// space between neighbours and none at the end.
pub open spec fn line_text(name: Seq<char>, timestamp: Seq<char>, values: Seq<Seq<char>>) -> Seq<
    char,
> {
    name + seq![' '] + timestamp + spaced(values)
}

/// The texts of a list of strings.
pub open spec fn string_texts(items: Seq<String>) -> Seq<Seq<char>> {
    Seq::new(items.len(), |i: int| items[i]@)
}

/// Writes the output line of a data point, without a line terminator.
pub fn format_line(name: &str, timestamp: &str, values: &Vec<String>) -> (line: String)
    ensures
        line@ == line_text(name@, timestamp@, string_texts(values@)),
{
    proof {
        reveal_strlit(" ");
    }
    assert(" "@ =~= seq![' ']);
    let mut line = String::new();
    line.append(name);
    line.append(" ");
    line.append(timestamp);
    assert(line@ =~= name@ + seq![' '] + timestamp@);
    let mut i: usize = 0;
    while i < values.len()
        invariant
            i <= values@.len(),
            " "@ == seq![' '],
            line@ == name@ + seq![' '] + timestamp@ + spaced(string_texts(values@).take(i as int)),
        decreases values@.len() - i,
    {
        let ghost before = string_texts(values@).take(i as int);
        let ghost after = string_texts(values@).take(i + 1);
        assert(after.drop_last() =~= before);
        assert(after.last() == values@[i as int]@);
        line.append(" ");
        line.append(values[i].as_str());
        assert(line@ =~= name@ + seq![' '] + timestamp@ + spaced(after));
        i += 1;
    }
    assert(string_texts(values@).take(i as int) =~= string_texts(values@));
    line
}

} // verus!
