use vstd::prelude::*;
use crate::text::{trim, trim_str};

verus! {

/// The character sequences held by a sequence of strings.
pub open spec fn strings_view(v: Seq<String>) -> Seq<Seq<char>> {
    v.map_values(|s: String| s@)
}

/// The pieces of `s` between commas, as `str::split(',')` yields them: one
/// more piece than there are commas, empty pieces included.
pub open spec fn split_commas(s: Seq<char>) -> Seq<Seq<char>>
    decreases s.len(),
{
    if s.len() == 0 {
        seq![Seq::empty()]
    } else {
        let parts = split_commas(s.drop_last());
        if s.last() == ',' {
            parts.push(Seq::empty())
        } else {
            parts.update(parts.len() - 1, parts.last().push(s.last()))
        }
    }
}

/// Splitting always yields at least one piece.
pub proof fn lemma_split_commas_nonempty(s: Seq<char>)
    ensures
        split_commas(s).len() >= 1,
    decreases s.len(),
{
    if s.len() > 0 {
        lemma_split_commas_nonempty(s.drop_last());
    }
}

/// `i` is the position of the first `:` of `s`.
pub open spec fn first_colon_at(s: Seq<char>, i: int) -> bool {
    &&& 0 <= i < s.len()
    &&& s[i] == ':'
    &&& forall|k: int| 0 <= k < i ==> s[k] != ':'
}

/// The destinations and the body that a command line carries.
pub struct Command {
    pub to: Seq<Seq<char>>,
    pub body: Seq<char>,
}

/// What the line `<dest1>,<dest2>,...:<body>` means: the trimmed,
/// comma-separated names before the first `:`, and the trimmed rest. A line
/// without `:` carries no command.
pub open spec fn parse_command(line: Seq<char>) -> Option<Command> {
    if exists|i: int| first_colon_at(line, i) {
        let i = choose|i: int| first_colon_at(line, i);
        Some(
            Command {
                to: split_commas(line.take(i)).map_values(|p: Seq<char>| trim(p)),
                body: trim(line.skip(i + 1)),
            },
        )
    } else {
        None
    }
}

/// The first `:` of a line is at one position only.
pub proof fn lemma_first_colon_unique(s: Seq<char>, i: int, j: int)
    requires
        first_colon_at(s, i),
        first_colon_at(s, j),
    ensures
        i == j,
{
}

/// A message from one peer to an ordered list of destination peers;
/// a destination listed twice is delivered to twice.
pub struct RoutedMessage {
    pub from: String,
    pub to: Vec<String>,
    pub body: String,
}

/// The abstract content of a `RoutedMessage`.
pub struct RoutedMessageModel {
    pub from: Seq<char>,
    pub to: Seq<Seq<char>>,
    pub body: Seq<char>,
}

impl View for RoutedMessage {
    type V = RoutedMessageModel;

    open spec fn view(&self) -> RoutedMessageModel {
        RoutedMessageModel { from: self.from@, to: strings_view(self.to@), body: self.body@ }
    }
}

/// The message that `line`, sent by `from`, stands for.
pub open spec fn routed_of(from: Seq<char>, line: Seq<char>) -> Option<RoutedMessageModel> {
    match parse_command(line) {
        Some(c) => Some(RoutedMessageModel { from, to: c.to, body: c.body }),
        None => None,
    }
}

/// Position of the first `:` in `s`, if any.
fn find_colon(s: &str) -> (r: Option<usize>)
    ensures
        match r {
            Some(i) => first_colon_at(s@, i as int),
            None => forall|k: int| 0 <= k < s@.len() ==> s@[k] != ':',
        },
{
    let n = s.unicode_len();
    let mut i: usize = 0;
    while i < n
        invariant
            n == s@.len(),
            i <= n,
            forall|k: int| 0 <= k < i ==> s@[k] != ':',
        decreases n - i,
    {
        if s.get_char(i) == ':' {
            return Some(i);
        }
        i = i + 1;
    }
    None
}

/// Splits `s[..end]` at its commas and trims each piece.
fn split_destinations(s: &str, end: usize) -> (r: Vec<String>)
    requires
        end <= s@.len(),
    ensures
        strings_view(r@) == split_commas(s@.take(end as int)).map_values(|p: Seq<char>| trim(p)),
{
    let mut parts: Vec<String> = Vec::new();
    let mut start: usize = 0;
    let mut i: usize = 0;
    proof {
        assert(s@.take(0) =~= Seq::<char>::empty());
    }
    while i < end
        invariant
            end <= s@.len(),
            start <= i <= end,
            split_commas(s@.take(i as int)).len() == parts@.len() + 1,
            forall|k: int|
                0 <= k < parts@.len() ==> #[trigger] parts@[k]@ == trim(
                    split_commas(s@.take(i as int))[k],
                ),
            split_commas(s@.take(i as int)).last() == s@.subrange(start as int, i as int),
        decreases end - i,
    {
        let ghost before = split_commas(s@.take(i as int));
        proof {
            assert(s@.take(i + 1).drop_last() =~= s@.take(i as int));
            lemma_split_commas_nonempty(s@.take(i as int));
        }
        if s.get_char(i) == ',' {
            let piece = slice_and_trim(s, start, i);
            parts.push(piece);
            start = i + 1;
            proof {
                assert(s@.subrange(start as int, i + 1) =~= Seq::<char>::empty());
            }
        } else {
            proof {
                assert(s@.subrange(start as int, i + 1) =~= s@.subrange(start as int, i as int).push(
                    s@[i as int],
                ));
            }
        }
        i = i + 1;
    }
    let last = slice_and_trim(s, start, end);
    parts.push(last);
    proof {
        let whole = split_commas(s@.take(end as int));
        assert(strings_view(parts@) =~= whole.map_values(|p: Seq<char>| trim(p)));
    }
    parts
}

/// The characters `s[from..to]`, trimmed.
fn slice_and_trim(s: &str, from: usize, to: usize) -> (r: String)
    requires
        from <= to <= s@.len(),
    ensures
        r@ == trim(s@.subrange(from as int, to as int)),
{
    let part = s.substring_char(from, to);
    trim_str(part)
}

/// Parses one line that the peer `from` sent after its name:
/// `<dest1>,<dest2>,...:<body>`. A line without `:` gives `None`.
pub fn parse_line(from: &String, line: &str) -> (r: Option<RoutedMessage>)
    ensures
        r is None <==> !line@.contains(':'),
        r matches Some(m) ==> routed_of(from@, line@) == Some(m@),
        r is None ==> routed_of(from@, line@) is None,
{
    match find_colon(line) {
        None => None,
        Some(i) => {
            let to = split_destinations(line, i);
            let n = line.unicode_len();
            let body = slice_and_trim(line, i + 1, n);
            proof {
                assert(line@.skip(i + 1) =~= line@.subrange(i + 1, n as int));
                let j = choose|j: int| first_colon_at(line@, j);
                lemma_first_colon_unique(line@, i as int, j);
            }
            Some(RoutedMessage { from: from.clone(), to, body })
        },
    }
}

} // verus!
