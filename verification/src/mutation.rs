//! Operations that change a text: its case, its spaces, its shape.

use crate::text::{
    char_is_whitespace, chars_of, find_first, first_of, is_whitespace, same_text, trim_bounds,
    trimmed, views_of,
};
use vstd::prelude::*;

verus! {

/// An operation on a text.
#[derive(Debug, Clone, Copy, PartialEq, Eq, Structural)]
pub enum Mutation {
    Lowercase,
    Uppercase,
    NoSpaces,
    Slugify,
    LittleBig,
    CamelCase,
    Csv,
    Help,
}

/// The width that a terminal is taken to have where it does not tell.
pub const DEFAULT_WIDTH: usize = 80;

/// What `str::to_lowercase` makes of a text.
pub uninterp spec fn lowercase_of(text: Seq<char>) -> Seq<char>;

/// What `str::to_uppercase` makes of a text.
pub uninterp spec fn uppercase_of(text: Seq<char>) -> Seq<char>;

/// The characters that `char::to_lowercase` gives for a character.
pub uninterp spec fn char_lowercase_of(c: char) -> Seq<char>;

/// The characters that `char::to_uppercase` gives for a character.
pub uninterp spec fn char_uppercase_of(c: char) -> Seq<char>;

/// What `slug::slugify` makes of a text.
pub uninterp spec fn slug_of(text: Seq<char>) -> Seq<char>;

/// Whether `c` may stand in a slug: a small letter of `a` to `z`, a digit or
/// a hyphen.
pub open spec fn is_slug_char(c: char) -> bool {
    ('a' <= c <= 'z') || ('0' <= c <= '9') || c == '-'
}

/// Whether `slug` has the shape of a slug: made of small letters, digits and
/// hyphens, with no hyphen at either end and no two hyphens in a row.
pub open spec fn is_slug(slug: Seq<char>) -> bool {
    &&& forall|i: int| 0 <= i < slug.len() ==> is_slug_char(#[trigger] slug[i])
    &&& slug.len() > 0 ==> slug.first() != '-' && slug.last() != '-'
    &&& forall|i: int| 0 <= i < slug.len() - 1 ==> !(#[trigger] slug[i] == '-' && slug[i + 1] == '-')
}

/// `str::to_lowercase` of std: the text in lower case as Unicode defines it.
/// The result depends on the text alone and is what `lowercase_of` names.
#[verifier::external_body]
fn to_lowercase(text: &str) -> (r: String)
    ensures
        r@ == lowercase_of(text@),
{
    text.to_lowercase()
}

/// `str::to_uppercase` of std: the text in upper case as Unicode defines it.
/// The result depends on the text alone and is what `uppercase_of` names.
#[verifier::external_body]
fn to_uppercase(text: &str) -> (r: String)
    ensures
        r@ == uppercase_of(text@),
{
    text.to_uppercase()
}

/// `char::to_lowercase` of std, its characters gathered in a string. The
/// result depends on the character alone and is what `char_lowercase_of`
/// names.
#[verifier::external_body]
fn char_to_lowercase(c: char) -> (r: String)
    ensures
        r@ == char_lowercase_of(c),
{
    c.to_lowercase().to_string()
}

/// `char::to_uppercase` of std, its characters gathered in a string. The
/// result depends on the character alone and is what `char_uppercase_of`
/// names.
#[verifier::external_body]
fn char_to_uppercase(c: char) -> (r: String)
    ensures
        r@ == char_uppercase_of(c),
{
    c.to_uppercase().to_string()
}

/// `slug::slugify`: the text as a slug. The result depends on the text alone
/// and is what `slug_of` names; it is made of small letters, digits and
/// hyphens, no hyphen stands at either end and no two stand in a row.
#[verifier::external_body]
fn slug_slugify(text: &str) -> (r: String)
    ensures
        r@ == slug_of(text@),
        is_slug(r@),
{
    slug::slugify(text)
}

/// `text` without its spaces and line breaks.
pub open spec fn no_spaces_of(text: Seq<char>) -> Seq<char>
    decreases text.len(),
{
    if text.len() == 0 {
        Seq::empty()
    } else if text.first() == ' ' || text.first() == '\n' {
        no_spaces_of(text.drop_first())
    } else {
        seq![text.first()] + no_spaces_of(text.drop_first())
    }
}

/// The words of `text` after `current`, the part of a word that came right
/// before `text`. A word is a run of characters other than white space that
/// no such character stands next to.
pub open spec fn words_from(text: Seq<char>, current: Seq<char>) -> Seq<Seq<char>>
    decreases text.len(),
{
    let done = if current.len() > 0 {
        seq![current]
    } else {
        Seq::empty()
    };
    if text.len() == 0 {
        done
    } else if is_whitespace(text.first()) {
        done + words_from(text.drop_first(), Seq::empty())
    } else {
        words_from(text.drop_first(), current.push(text.first()))
    }
}

/// The words of `text`: its runs of characters other than white space.
pub open spec fn words_of(text: Seq<char>) -> Seq<Seq<char>> {
    words_from(text, Seq::empty())
}

/// The words in turn in lower and in upper case, the first in lower case,
/// a space after each.
pub open spec fn little_big_spaced(words: Seq<Seq<char>>) -> Seq<char>
    decreases words.len(),
{
    if words.len() == 0 {
        Seq::empty()
    } else if (words.len() - 1) % 2 == 1 {
        little_big_spaced(words.drop_last()) + uppercase_of(words.last()) + seq![' ']
    } else {
        little_big_spaced(words.drop_last()) + lowercase_of(words.last()) + seq![' ']
    }
}

/// The words of `text` in turn in lower and in upper case, one space between
/// two words.
pub open spec fn little_big_of(text: Seq<char>) -> Seq<char> {
    trimmed(little_big_spaced(words_of(text)))
}

/// Each character of `chars` in lower case.
pub open spec fn lowered(chars: Seq<char>) -> Seq<char>
    decreases chars.len(),
{
    if chars.len() == 0 {
        Seq::empty()
    } else {
        lowered(chars.drop_last()) + char_lowercase_of(chars.last())
    }
}

/// A word with its first character in upper case and the others in lower
/// case.
pub open spec fn capitalised(word: Seq<char>) -> Seq<char> {
    if word.len() == 0 {
        Seq::empty()
    } else {
        char_uppercase_of(word.first()) + lowered(word.drop_first())
    }
}

/// The words, each capitalised, with nothing between them.
pub open spec fn camel_case_joined(words: Seq<Seq<char>>) -> Seq<char>
    decreases words.len(),
{
    if words.len() == 0 {
        Seq::empty()
    } else {
        camel_case_joined(words.drop_last()) + capitalised(words.last())
    }
}

/// The words of `text`, each capitalised, with nothing between them.
pub open spec fn camel_case_of(text: Seq<char>) -> Seq<char> {
    camel_case_joined(words_of(text))
}

/// What the operations are and how the program is run.
pub open spec fn help_text() -> Seq<char> {
    "This program can perform following operations:\nlowercase uppercase no-spaces slugify little-big camel-case csv help\nand can run in two modes. \n\nIn first mode it expects name of the operation as a cli argument and text to operate on \ncoming from stdin. In this mode it can handle multiline strings.\n\nIn second mode it runs in a loop reading lines where first word is operation name\nand the rest is argument for the operation.\ncsv operation works differently: the text after method name is considered a path to read from\n"@
}

/// What the operations are and how the program is run.
pub fn help() -> (r: Result<String, String>)
    ensures
        r is Ok,
        r->Ok_0@ == help_text(),
{
    Ok(
        String::from_str(
            "This program can perform following operations:\nlowercase uppercase no-spaces slugify little-big camel-case csv help\nand can run in two modes. \n\nIn first mode it expects name of the operation as a cli argument and text to operate on \ncoming from stdin. In this mode it can handle multiline strings.\n\nIn second mode it runs in a loop reading lines where first word is operation name\nand the rest is argument for the operation.\ncsv operation works differently: the text after method name is considered a path to read from\n",
        ),
    )
}

/// The text in lower case.
pub fn lowercase(input: String) -> (r: Result<String, String>)
    ensures
        r is Ok,
        r->Ok_0@ == lowercase_of(input@),
{
    Ok(to_lowercase(input.as_str()))
}

/// The text in upper case.
pub fn uppercase(input: String) -> (r: Result<String, String>)
    ensures
        r is Ok,
        r->Ok_0@ == uppercase_of(input@),
{
    Ok(to_uppercase(input.as_str()))
}

/// The text as a slug.
pub fn slugify(input: String) -> (r: Result<String, String>)
    ensures
        r is Ok,
        r->Ok_0@ == slug_of(input@),
        is_slug(r->Ok_0@),
{
    Ok(slug_slugify(input.as_str()))
}

/// The text without its spaces and line breaks.
pub fn no_spaces(input: String) -> (r: Result<String, String>)
    ensures
        r is Ok,
        r->Ok_0@ == no_spaces_of(input@),
{
    let text = input.as_str();
    let chars = chars_of(text);
    let n: usize = chars.len();
    let mut out = String::new();
    let mut start: usize = 0;
    let mut i: usize = 0;
    assert(chars@.subrange(0, n as int) =~= chars@);
    assert(out@ + chars@.subrange(0, 0) =~= Seq::<char>::empty());
    while i < n
        invariant
            start <= i <= n == chars@.len(),
            chars@ == text@,
            forall|j: int| start <= j < i ==> chars@[j] != ' ' && chars@[j] != '\n',
            no_spaces_of(chars@) == out@ + chars@.subrange(start as int, i as int) + no_spaces_of(
                chars@.subrange(i as int, n as int),
            ),
        decreases n - i,
    {
        let ghost rest = chars@.subrange(i as int, n as int);
        let ghost run = chars@.subrange(start as int, i as int);
        proof {
            assert(rest.first() == chars@[i as int]);
            assert(rest.drop_first() =~= chars@.subrange(i + 1, n as int));
        }
        if chars[i] == ' ' || chars[i] == '\n' {
            out.append(text.substring_char(start, i));
            start = i + 1;
            proof {
                assert(chars@.subrange(i + 1, i + 1) =~= Seq::<char>::empty());
                assert(out@ + Seq::<char>::empty() =~= out@);
            }
        } else {
            proof {
                let next = chars@.subrange(start as int, i + 1);
                assert(next =~= run + seq![chars@[i as int]]);
                let tail = no_spaces_of(rest.drop_first());
                assert(out@ + run + (seq![chars@[i as int]] + tail) =~= out@ + next + tail);
            }
        }
        i += 1;
    }
    out.append(text.substring_char(start, n));
    proof {
        assert(chars@.subrange(n as int, n as int) =~= Seq::<char>::empty());
        assert(out@ + Seq::<char>::empty() =~= out@);
    }
    Ok(out)
}

/// The words of `text`.
pub fn words(text: &str) -> (r: Vec<String>)
    ensures
        views_of(r@) == words_of(text@),
{
    let chars = chars_of(text);
    let n: usize = chars.len();
    let mut out: Vec<String> = Vec::new();
    let mut start: usize = 0;
    let mut i: usize = 0;
    assert(chars@.subrange(0, n as int) =~= chars@);
    assert(chars@.subrange(0, 0) =~= Seq::<char>::empty());
    assert(views_of(out@) =~= Seq::<Seq<char>>::empty());
    assert(Seq::<Seq<char>>::empty() + words_of(chars@) =~= words_of(chars@));
    while i < n
        invariant
            start <= i <= n == chars@.len(),
            chars@ == text@,
            words_of(chars@) == views_of(out@) + words_from(
                chars@.subrange(i as int, n as int),
                chars@.subrange(start as int, i as int),
            ),
        decreases n - i,
    {
        let ghost rest = chars@.subrange(i as int, n as int);
        let ghost current = chars@.subrange(start as int, i as int);
        let ghost before = views_of(out@);
        proof {
            assert(rest.first() == chars@[i as int]);
            assert(rest.drop_first() =~= chars@.subrange(i + 1, n as int));
            assert(chars@.subrange(i + 1, i + 1) =~= Seq::<char>::empty());
        }
        if char_is_whitespace(chars[i]) {
            if i > start {
                out.push(String::from_str(text.substring_char(start, i)));
                proof {
                    assert(views_of(out@) =~= before + seq![current]);
                    let tail = words_from(rest.drop_first(), Seq::empty());
                    assert(before + (seq![current] + tail) =~= (before + seq![current]) + tail);
                }
            } else {
                proof {
                    let tail = words_from(rest.drop_first(), Seq::empty());
                    assert(Seq::<Seq<char>>::empty() + tail =~= tail);
                }
            }
            start = i + 1;
        } else {
            proof {
                assert(chars@.subrange(start as int, i + 1) =~= current.push(chars@[i as int]));
            }
        }
        i += 1;
    }
    if n > start {
        let ghost before = views_of(out@);
        out.push(String::from_str(text.substring_char(start, n)));
        proof {
            assert(views_of(out@) =~= before + seq![chars@.subrange(start as int, n as int)]);
        }
    } else {
        assert(views_of(out@) + Seq::<Seq<char>>::empty() =~= views_of(out@));
    }
    out
}

/// The words of the text in turn in lower and in upper case, one space
/// between two words.
pub fn little_big(input: String) -> (r: Result<String, String>)
    ensures
        r is Ok,
        r->Ok_0@ == little_big_of(input@),
{
    let all = words(input.as_str());
    let mut spaced = String::new();
    let mut i: usize = 0;
    assert(views_of(all@).subrange(0, 0) =~= Seq::<Seq<char>>::empty());
    while i < all.len()
        invariant
            i <= all@.len(),
            spaced@ == little_big_spaced(views_of(all@).subrange(0, i as int)),
        decreases all@.len() - i,
    {
        let ghost done = views_of(all@).subrange(0, i as int);
        let ghost next = views_of(all@).subrange(0, i + 1);
        proof {
            assert(next.drop_last() =~= done);
            assert(next.last() == all@[i as int]@);
        }
        let word = if i % 2 == 1 {
            to_uppercase(all[i].as_str())
        } else {
            to_lowercase(all[i].as_str())
        };
        spaced.append(word.as_str());
        spaced.append(" ");
        proof {
            reveal_strlit(" ");
            assert(" "@ =~= seq![' ']);
        }
        i += 1;
    }
    assert(views_of(all@).subrange(0, i as int) =~= views_of(all@));
    let chars = chars_of(spaced.as_str());
    let (a, b) = trim_bounds(chars.as_slice(), 0);
    assert(chars@.subrange(0, chars@.len() as int) =~= chars@);
    Ok(String::from_str(spaced.as_str().substring_char(a, b)))
}

/// A word with its first character in upper case and the others in lower
/// case.
fn capitalise(word: &str) -> (r: String)
    ensures
        r@ == capitalised(word@),
{
    let chars = chars_of(word);
    let mut out = String::new();
    if chars.len() == 0 {
        return out;
    }
    out.append(char_to_uppercase(chars[0]).as_str());
    let ghost rest = chars@.drop_first();
    let mut j: usize = 1;
    assert(rest.subrange(0, 0) =~= Seq::<char>::empty());
    assert(out@ =~= char_uppercase_of(chars@.first()) + lowered(rest.subrange(0, 0)));
    while j < chars.len()
        invariant
            1 <= j <= chars@.len(),
            rest == chars@.drop_first(),
            out@ == char_uppercase_of(chars@.first()) + lowered(rest.subrange(0, j - 1)),
        decreases chars@.len() - j,
    {
        let ghost done = rest.subrange(0, j - 1);
        let ghost next = rest.subrange(0, j as int);
        proof {
            assert(next.drop_last() =~= done);
            assert(next.last() == chars@[j as int]);
        }
        out.append(char_to_lowercase(chars[j]).as_str());
        proof {
            assert(out@ =~= char_uppercase_of(chars@.first()) + lowered(next));
        }
        j += 1;
    }
    assert(rest.subrange(0, j - 1) =~= rest);
    out
}

/// The words of the text, each capitalised, with nothing between them.
pub fn camel_case(input: String) -> (r: Result<String, String>)
    ensures
        r is Ok,
        r->Ok_0@ == camel_case_of(input@),
{
    let all = words(input.as_str());
    let mut out = String::new();
    let mut i: usize = 0;
    assert(views_of(all@).subrange(0, 0) =~= Seq::<Seq<char>>::empty());
    while i < all.len()
        invariant
            i <= all@.len(),
            out@ == camel_case_joined(views_of(all@).subrange(0, i as int)),
        decreases all@.len() - i,
    {
        let ghost done = views_of(all@).subrange(0, i as int);
        let ghost next = views_of(all@).subrange(0, i + 1);
        proof {
            assert(next.drop_last() =~= done);
            assert(next.last() == all@[i as int]@);
        }
        out.append(capitalise(all[i].as_str()).as_str());
        i += 1;
    }
    assert(views_of(all@).subrange(0, i as int) =~= views_of(all@));
    Ok(out)
}

/// The rows of a table as a mathematical value: the characters of each cell
/// of each row.
pub open spec fn rows_view(rows: Seq<Vec<String>>) -> Seq<Seq<Seq<char>>> {
    Seq::new(rows.len(), |i: int| views_of(rows[i]@))
}

/// What reading comma-separated values gave, as a mathematical value.
pub open spec fn records_view(records: Result<Vec<Vec<String>>, String>) -> Result<
    Seq<Seq<Seq<char>>>,
    Seq<char>,
> {
    match records {
        Ok(rows) => Ok(rows_view(rows@)),
        Err(reason) => Err(reason@),
    }
}

/// The records that the `csv` crate reads from a text, the header first, or
/// what it says of the text where it cannot read it.
pub uninterp spec fn csv_records_of(input: Seq<char>) -> Result<Seq<Seq<Seq<char>>>, Seq<char>>;

/// The table that the `stanza` crate draws of rows for a console, no column
/// wider than `max_width`.
pub uninterp spec fn table_of(rows: Seq<Seq<Seq<char>>>, max_width: usize) -> Seq<char>;

/// Reads comma-separated values with the `csv` crate: `Reader::from_reader`
/// on the text's bytes, `headers` for the first record and `records` for
/// those after it, the fields of each as strings. The outcome depends on the
/// text alone and is what `csv_records_of` names; an error of the crate
/// comes back as the text it prints as.
#[verifier::external_body]
fn read_csv(input: &str) -> (r: Result<Vec<Vec<String>>, String>)
    ensures
        records_view(r) == csv_records_of(input@),
{
    let mut rdr = csv::Reader::from_reader(input.as_bytes());
    let headers = rdr.headers().map_err(|e| e.to_string())?;
    let mut rows: Vec<Vec<String>> = Vec::new();
    rows.push(headers.iter().map(|field| field.to_string()).collect());
    for result in rdr.records() {
        let record = result.map_err(|e| e.to_string())?;
        rows.push(record.iter().map(|field| field.to_string()).collect());
    }
    Ok(rows)
}

/// Draws a table with the `stanza` crate: a `Table` whose style is
/// `MaxWidth(max_width)`, each row added with `push_row`, rendered by the
/// default `Console`. The text depends on the rows and the width alone and is
/// what `table_of` names. The crate refuses a table without a row or without
/// a column, so there must be a first row and it must have a cell.
#[verifier::external_body]
fn render_table(rows: &Vec<Vec<String>>, max_width: usize) -> (r: String)
    requires
        rows@.len() > 0,
        rows@[0]@.len() > 0,
    ensures
        r@ == table_of(rows_view(rows@), max_width),
{
    let styles = stanza::style::Styles::default().with(stanza::style::MaxWidth(max_width));
    let mut table = stanza::table::Table::with_styles(styles);
    for row in rows {
        table.push_row(row);
    }
    let renderer = stanza::renderer::console::Console::default();
    stanza::renderer::Renderer::render(&renderer, &table).to_string()
}

/// `term_size::dimensions`: the width and the height of the terminal, where
/// the program runs in one that tells. Nothing is promised of the numbers.
#[verifier::external_body]
fn terminal_dimensions() -> Option<(usize, usize)> {
    term_size::dimensions()
}

/// The width to draw for, given the dimensions of the terminal where it
/// told them: its width, or `DEFAULT_WIDTH` where there is none to ask.
pub fn width_of(dimensions: Option<(usize, usize)>) -> (r: usize)
    ensures
        r == match dimensions {
            Some((width, _)) => width,
            None => DEFAULT_WIDTH,
        },
{
    match dimensions {
        Some((width, _)) => width,
        None => DEFAULT_WIDTH,
    }
}

/// The width of the terminal that the program runs in.
fn term_width() -> usize {
    width_of(terminal_dimensions())
}

/// How wide a column of a table may be at most, so that `count` columns, the
/// lines between them and the two borders fit in a terminal `width`
/// characters wide.
pub open spec fn max_column_width_of(count: usize, width: usize) -> int {
    (width - 2 - (count - 1)) / (count as int)
}

/// Whether `count` columns of any width fit in a terminal `width` characters
/// wide: there is at least one column, and there is room for the borders and
/// the lines between the columns.
pub open spec fn columns_fit(count: usize, width: usize) -> bool {
    count >= 1 && width >= count + 1
}

/// How wide a column of a table may be at most, so that `count` columns fit
/// in a terminal `width` characters wide.
pub fn max_column_width(count: usize, width: usize) -> (r: usize)
    requires
        columns_fit(count, width),
    ensures
        r == max_column_width_of(count, width),
{
    let delimiters: usize = count - 1;
    let borders: usize = 2;
    (width - borders - delimiters) / count
}

/// The table drawn of records, given what reading them gave and the width
/// of the terminal.
///
/// What could not be read is reported as it was. Records without a header
/// field are refused, and so are records with more columns than a terminal
/// of that width has room for. A line break follows the table.
pub open spec fn csv_table_of(
    records: Result<Seq<Seq<Seq<char>>>, Seq<char>>,
    width: usize,
) -> Result<Seq<char>, Seq<char>> {
    match records {
        Err(reason) => Err(reason),
        Ok(rows) => if rows.len() == 0 || rows[0].len() == 0 {
            Err("Empty headers"@)
        } else if !columns_fit(rows[0].len() as usize, width) {
            Err("Cannot render table"@)
        } else {
            Ok(
                table_of(rows, max_column_width_of(rows[0].len() as usize, width) as usize) + seq![
                    '\n',
                ],
            )
        },
    }
}

/// Whether `r` is the outcome `expected` of an operation on a text.
pub open spec fn is_outcome(r: Result<String, String>, expected: Result<Seq<char>, Seq<char>>) -> bool {
    match r {
        Ok(text) => expected == Ok::<Seq<char>, Seq<char>>(text@),
        Err(reason) => expected == Err::<Seq<char>, Seq<char>>(reason@),
    }
}

/// The table drawn of records, given what reading them gave and the width
/// of the terminal.
pub fn csv_table(records: Result<Vec<Vec<String>>, String>, width: usize) -> (r: Result<
    String,
    String,
>)
    ensures
        is_outcome(r, csv_table_of(records_view(records), width)),
{
    match records {
        Err(reason) => Err(reason),
        Ok(rows) => {
            if rows.len() == 0 || rows[0].len() == 0 {
                return Err(String::from_str("Empty headers"));
            }
            let count: usize = rows[0].len();
            assert(rows_view(rows@)[0].len() == count);
            if width < 2 || width - 1 < count {
                return Err(String::from_str("Cannot render table"));
            }
            let mut output = render_table(&rows, max_column_width(count, width));
            output.append("\n");
            proof {
                reveal_strlit("\n");
                assert("\n"@ =~= seq!['\n']);
            }
            Ok(output)
        },
    }
}

/// The table drawn of the comma-separated values of the text for a terminal
/// `width` characters wide.
pub fn csv_within(input: String, width: usize) -> (r: Result<String, String>)
    ensures
        is_outcome(r, csv_table_of(csv_records_of(input@), width)),
{
    csv_table(read_csv(input.as_str()), width)
}

/// The table drawn of the comma-separated values of the text for the
/// terminal that the program runs in, whatever its width.
pub fn csv(input: String) -> (r: Result<String, String>)
    ensures
        exists|width: usize| is_outcome(r, #[trigger] csv_table_of(csv_records_of(input@), width)),
{
    let width = term_width();
    csv_within(input, width)
}

/// The operation that a name stands for.
pub open spec fn named(name: Seq<char>) -> Option<Mutation> {
    if name == "lowercase"@ {
        Some(Mutation::Lowercase)
    } else if name == "uppercase"@ {
        Some(Mutation::Uppercase)
    } else if name == "no-spaces"@ {
        Some(Mutation::NoSpaces)
    } else if name == "slugify"@ {
        Some(Mutation::Slugify)
    } else if name == "little-big"@ {
        Some(Mutation::LittleBig)
    } else if name == "camel-case"@ {
        Some(Mutation::CamelCase)
    } else if name == "csv"@ {
        Some(Mutation::Csv)
    } else if name == "help"@ {
        Some(Mutation::Help)
    } else {
        None
    }
}

/// What is said of a name that stands for no operation.
pub open spec fn unknown_method(name: Seq<char>) -> Seq<char> {
    "Unknown method "@ + name
}

/// What an operation makes of a text in a terminal `width` characters wide.
/// Only the drawing of a table looks at the width.
pub open spec fn mutated(operation: Mutation, text: Seq<char>, width: usize) -> Result<
    Seq<char>,
    Seq<char>,
> {
    match operation {
        Mutation::Lowercase => Ok(lowercase_of(text)),
        Mutation::Uppercase => Ok(uppercase_of(text)),
        Mutation::NoSpaces => Ok(no_spaces_of(text)),
        Mutation::Slugify => Ok(slug_of(text)),
        Mutation::LittleBig => Ok(little_big_of(text)),
        Mutation::CamelCase => Ok(camel_case_of(text)),
        Mutation::Csv => csv_table_of(csv_records_of(text), width),
        Mutation::Help => Ok(help_text()),
    }
}

impl Mutation {
    /// The operation that the name `item` stands for, or what is said of a
    /// name that stands for none.
    pub fn try_from(item: &str) -> (r: Result<Mutation, String>)
        ensures
            match named(item@) {
                Some(operation) => r == Ok::<Mutation, String>(operation),
                None => r is Err && r->Err_0@ == unknown_method(item@),
            },
    {
        if same_text(item, "lowercase") {
            Ok(Mutation::Lowercase)
        } else if same_text(item, "uppercase") {
            Ok(Mutation::Uppercase)
        } else if same_text(item, "no-spaces") {
            Ok(Mutation::NoSpaces)
        } else if same_text(item, "slugify") {
            Ok(Mutation::Slugify)
        } else if same_text(item, "little-big") {
            Ok(Mutation::LittleBig)
        } else if same_text(item, "camel-case") {
            Ok(Mutation::CamelCase)
        } else if same_text(item, "csv") {
            Ok(Mutation::Csv)
        } else if same_text(item, "help") {
            Ok(Mutation::Help)
        } else {
            Err(String::from_str("Unknown method ").concat(item))
        }
    }

    /// The word under which the operation is shown.
    pub open spec fn shown(self) -> Seq<char> {
        match self {
            Mutation::Lowercase => "lowercase"@,
            Mutation::Uppercase => "uppercase"@,
            Mutation::NoSpaces => "no_spaces"@,
            Mutation::Slugify => "slugify"@,
            Mutation::LittleBig => "little_big"@,
            Mutation::CamelCase => "camel_case"@,
            Mutation::Csv => "csv"@,
            Mutation::Help => "help"@,
        }
    }

    /// The word under which the operation is shown.
    pub fn to_string(&self) -> (r: String)
        ensures
            r@ == self.shown(),
    {
        match self {
            Mutation::Lowercase => String::from_str("lowercase"),
            Mutation::Uppercase => String::from_str("uppercase"),
            Mutation::NoSpaces => String::from_str("no_spaces"),
            Mutation::Slugify => String::from_str("slugify"),
            Mutation::LittleBig => String::from_str("little_big"),
            Mutation::CamelCase => String::from_str("camel_case"),
            Mutation::Csv => String::from_str("csv"),
            Mutation::Help => String::from_str("help"),
        }
    }

    /// What the operation makes of `text` in a terminal `width` characters
    /// wide.
    pub fn mutate_within(&self, text: String, width: usize) -> (r: Result<String, String>)
        ensures
            is_outcome(r, mutated(*self, text@, width)),
    {
        match self {
            Mutation::Lowercase => lowercase(text),
            Mutation::Uppercase => uppercase(text),
            Mutation::NoSpaces => no_spaces(text),
            Mutation::Slugify => slugify(text),
            Mutation::LittleBig => little_big(text),
            Mutation::CamelCase => camel_case(text),
            Mutation::Csv => csv_within(text, width),
            Mutation::Help => help(),
        }
    }

    /// What the operation makes of `text` in the terminal that the program
    /// runs in, whatever its width.
    pub fn mutate(&self, text: String) -> (r: Result<String, String>)
        ensures
            exists|width: usize| is_outcome(r, #[trigger] mutated(*self, text@, width)),
            !(*self is Csv) ==> is_outcome(r, mutated(*self, text@, DEFAULT_WIDTH)),
    {
        match self {
            Mutation::Csv => {
                let r = csv(text);
                proof {
                    let width = choose|width: usize|
                        is_outcome(r, #[trigger] csv_table_of(csv_records_of(text@), width));
                    assert(is_outcome(r, mutated(*self, text@, width)));
                }
                r
            },
            _ => {
                let r = self.mutate_within(text, DEFAULT_WIDTH);
                assert(is_outcome(r, mutated(*self, text@, DEFAULT_WIDTH)));
                r
            },
        }
    }
}

/// The name with which a line begins: the line up to its first space.
pub open spec fn name_of(line: Seq<char>) -> Seq<char> {
    line.subrange(0, first_of(line, ' '))
}

/// The text that a line hands to its operation: what follows the first
/// space, and a space after it; nothing where the line has no space.
pub open spec fn argument_of(line: Seq<char>) -> Seq<char> {
    if first_of(line, ' ') < line.len() {
        line.subrange(first_of(line, ' ') + 1, line.len() as int) + seq![' ']
    } else {
        Seq::empty()
    }
}

/// An operation and the text to apply it to.
#[derive(Debug, PartialEq, Eq)]
pub struct Command {
    operation: Mutation,
    argument: String,
}

impl Command {
    /// The operation of the command.
    pub closed spec fn spec_operation(&self) -> Mutation {
        self.operation
    }

    /// The text that the command applies its operation to.
    pub closed spec fn spec_argument(&self) -> Seq<char> {
        self.argument@
    }

    /// The operation of the command.
    #[verifier::when_used_as_spec(spec_operation)]
    pub fn operation(&self) -> (r: Mutation)
        ensures
            r == self.spec_operation(),
    {
        self.operation
    }

    /// The text that the command applies its operation to.
    pub fn argument(&self) -> (r: &String)
        ensures
            r@ == self.spec_argument(),
    {
        &self.argument
    }

    /// The command that the line `item` stands for: the operation that the
    /// line's first word names, applied to the rest of the line. A first
    /// word that names no operation is refused.
    pub fn try_from(item: &str) -> (r: Result<Command, String>)
        ensures
            match named(name_of(item@)) {
                Some(operation) => r is Ok && r->Ok_0.spec_operation() == operation
                    && r->Ok_0.spec_argument() == argument_of(item@),
                None => r is Err && r->Err_0@ == unknown_method(name_of(item@)),
            },
    {
        let chars = chars_of(item);
        let n: usize = chars.len();
        let k: usize = find_first(chars.as_slice(), ' ');
        match Mutation::try_from(item.substring_char(0, k)) {
            Ok(operation) => {
                let mut argument = String::new();
                if k < n {
                    argument.append(item.substring_char(k + 1, n));
                    argument.append(" ");
                    proof {
                        reveal_strlit(" ");
                        assert(" "@ =~= seq![' ']);
                    }
                }
                Ok(Command { operation, argument })
            },
            Err(reason) => Err(reason),
        }
    }

    /// Applies the operation to the text. Drawing a table is no operation
    /// for a command.
    pub fn execute(self) -> (r: Result<String, String>)
        requires
            !(self.spec_operation() is Csv),
        ensures
            is_outcome(r, mutated(self.spec_operation(), self.spec_argument(), DEFAULT_WIDTH)),
    {
        self.operation.mutate(self.argument)
    }
}

/// The command that a line of the input stands for, or the reason why the
/// line could not be read or stands for none.
pub fn get_command(raw_line: Result<String, String>) -> (r: Result<Command, String>)
    ensures
        match raw_line {
            Ok(line) => match named(name_of(line@)) {
                Some(operation) => r is Ok && r->Ok_0.spec_operation() == operation
                    && r->Ok_0.spec_argument() == argument_of(line@),
                None => r is Err && r->Err_0@ == unknown_method(name_of(line@)),
            },
            Err(reason) => r is Err && r->Err_0@ == reason@,
        },
{
    match raw_line {
        Ok(line) => Command::try_from(line.as_str()),
        Err(reason) => Err(reason),
    }
}

} // verus!
