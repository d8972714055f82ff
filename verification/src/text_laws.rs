use vstd::prelude::*;

use crate::client::shown_text;
use crate::message::{joined_text, left_text, said_text};

verus! {

/// A relayed chat line is the whole username, a colon and a space, then the
/// whole line, nothing cut and nothing added.
pub proof fn law_said_text_keeps_name_and_line(name: Seq<char>, line: Seq<char>)
    ensures
        said_text(name, line).len() == name.len() as int + 2 + line.len(),
        said_text(name, line).take(name.len() as int) == name,
        said_text(name, line)[name.len() as int] == ':',
        said_text(name, line)[name.len() as int + 1] == ' ',
        said_text(name, line).skip(name.len() as int + 2) == line,
{
    reveal_strlit(": ");
    let t = said_text(name, line);
    assert(t.take(name.len() as int) =~= name);
    assert(t.skip(name.len() as int + 2) =~= line);
}

/// A join announcement is the whole username, `" ("`, the whole address,
/// then `") joined the chat!"`.
pub proof fn law_joined_text_keeps_name_and_addr(name: Seq<char>, addr: Seq<char>)
    ensures
        joined_text(name, addr).len() == name.len() as int + addr.len() + 20,
        joined_text(name, addr).take(name.len() as int) == name,
        joined_text(name, addr).subrange(name.len() as int, name.len() as int + 2) == seq![' ', '('],
        joined_text(name, addr).subrange(name.len() as int + 2, name.len() as int + 2 + addr.len()) == addr,
        joined_text(name, addr).skip(name.len() as int + 2 + addr.len()) == seq![
            ')', ' ', 'j', 'o', 'i', 'n', 'e', 'd', ' ', 't', 'h', 'e', ' ', 'c', 'h', 'a', 't', '!',
        ],
{
    reveal_strlit(" (");
    reveal_strlit(") joined the chat!");
    let t = joined_text(name, addr);
    let n = name.len() as int;
    let a = addr.len() as int;
    assert(t.take(n) =~= name);
    assert(t.subrange(n, n + 2) =~= seq![' ', '(']);
    assert(t.subrange(n + 2, n + 2 + a) =~= addr);
    assert(t.skip(n + 2 + a) =~= seq![
        ')', ' ', 'j', 'o', 'i', 'n', 'e', 'd', ' ', 't', 'h', 'e', ' ', 'c', 'h', 'a', 't', '!',
    ]);
}

/// A departure announcement is the whole username, `" ("`, the whole
/// address, then `") left the chat!"`.
pub proof fn law_left_text_keeps_name_and_addr(name: Seq<char>, addr: Seq<char>)
    ensures
        left_text(name, addr).len() == name.len() as int + addr.len() + 18,
        left_text(name, addr).take(name.len() as int) == name,
        left_text(name, addr).subrange(name.len() as int, name.len() as int + 2) == seq![' ', '('],
        left_text(name, addr).subrange(name.len() as int + 2, name.len() as int + 2 + addr.len()) == addr,
        left_text(name, addr).skip(name.len() as int + 2 + addr.len()) == seq![
            ')', ' ', 'l', 'e', 'f', 't', ' ', 't', 'h', 'e', ' ', 'c', 'h', 'a', 't', '!',
        ],
{
    reveal_strlit(" (");
    reveal_strlit(") left the chat!");
    let t = left_text(name, addr);
    let n = name.len() as int;
    let a = addr.len() as int;
    assert(t.take(n) =~= name);
    assert(t.subrange(n, n + 2) =~= seq![' ', '(']);
    assert(t.subrange(n + 2, n + 2 + a) =~= addr);
    assert(t.skip(n + 2 + a) =~= seq![
        ')', ' ', 'l', 'e', 'f', 't', ' ', 't', 'h', 'e', ' ', 'c', 'h', 'a', 't', '!',
    ]);
}

/// A line from the server is shown as `"> "` followed by the whole line.
pub proof fn law_shown_text_keeps_line(line: Seq<char>)
    ensures
        shown_text(line).len() == line.len() + 2,
        shown_text(line).take(2) == seq!['>', ' '],
        shown_text(line).skip(2) == line,
{
    reveal_strlit("> ");
    let t = shown_text(line);
    assert(t.take(2) =~= seq!['>', ' ']);
    assert(t.skip(2) =~= line);
}

} // verus!
