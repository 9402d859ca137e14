use vstd::prelude::*;

use crate::addr::{parse_ipv4, parse_ipv4_spec, parse_port, parse_port_spec, Ipv4Address};
use crate::error::MiniFtpError;
use crate::text::{
    is_white, join_with, sep_free, split_drop, split_string, str_eq, trim_spec, trim_str,
};
use vstd::utf8::{decode_utf8, encode_utf8, valid_utf8};

verus! {

/// The closed set of protocol commands. `Open`, `Lcd` and `Quit` are
/// client-local and have no wire encoding.
#[derive(Debug, Clone, PartialEq)]
pub enum Command {
    Open(Ipv4Address, u16),
    User(String),
    Password(String),
    Cd(String),
    Lcd(String),
    Dir,
    Get(String, String),
    Put(String, String),
    Mget(Vec<String>),
    Mput(Vec<String>),
    Quit,
}

/// The mathematical shape of a command: payloads as character sequences.
pub enum CommandV {
    Open(Ipv4Address, u16),
    User(Seq<char>),
    Password(Seq<char>),
    Cd(Seq<char>),
    Lcd(Seq<char>),
    Dir,
    Get(Seq<char>, Seq<char>),
    Put(Seq<char>, Seq<char>),
    Mget(Seq<Seq<char>>),
    Mput(Seq<Seq<char>>),
    Quit,
}

impl View for Command {
    type V = CommandV;

    open spec fn view(&self) -> CommandV {
        match self {
            Command::Open(ip, port) => CommandV::Open(*ip, *port),
            Command::User(n) => CommandV::User(n@),
            Command::Password(p) => CommandV::Password(p@),
            Command::Cd(d) => CommandV::Cd(d@),
            Command::Lcd(d) => CommandV::Lcd(d@),
            Command::Dir => CommandV::Dir,
            Command::Get(a, b) => CommandV::Get(a@, b@),
            Command::Put(a, b) => CommandV::Put(a@, b@),
            Command::Mget(ns) => CommandV::Mget(ns.deep_view()),
            Command::Mput(ns) => CommandV::Mput(ns.deep_view()),
            Command::Quit => CommandV::Quit,
        }
    }
}

/// A payload token: nonempty text without spaces. Only such payloads
/// survive tokenization unchanged.
pub open spec fn token_ok(t: Seq<char>) -> bool {
    t.len() > 0 && sep_free(t, ' ')
}

/// A batch-transfer name: a token without commas, so that the
/// comma-separated list syntax can read it back.
pub open spec fn name_ok(t: Seq<char>) -> bool {
    token_ok(t) && sep_free(t, ',')
}

/// A token that may stand at the very end of a line: trimming leaves its
/// last character in place. Only the line-final token can lose characters
/// to trimming, so wire-legality constrains no other position.
pub open spec fn end_ok(t: Seq<char>) -> bool {
    t.len() > 0 && !is_white(t.last())
}

/// Variants that possess a wire encoding at all.
pub open spec fn encodable(c: CommandV) -> bool {
    !(c matches CommandV::Open(_, _) || c matches CommandV::Lcd(_) || c matches CommandV::Quit)
}

/// Wire-legal: encodable, with payloads the shared grammar reads back
/// verbatim.
pub open spec fn wire_legal(c: CommandV) -> bool {
    match c {
        CommandV::User(n) => token_ok(n) && end_ok(n),
        CommandV::Password(p) => token_ok(p) && end_ok(p),
        CommandV::Cd(d) => token_ok(d) && end_ok(d),
        CommandV::Dir => true,
        CommandV::Get(a, b) => token_ok(a) && token_ok(b) && end_ok(b),
        CommandV::Put(a, b) => token_ok(a) && token_ok(b) && end_ok(b),
        CommandV::Mget(ns) => ns.len() >= 1 && (forall|i: int|
            0 <= i < ns.len() ==> name_ok(#[trigger] ns[i])) && end_ok(ns.last()),
        CommandV::Mput(ns) => ns.len() >= 1 && (forall|i: int|
            0 <= i < ns.len() ==> name_ok(#[trigger] ns[i])) && end_ok(ns.last()),
        CommandV::Open(_, _) => false,
        CommandV::Lcd(_) => false,
        CommandV::Quit => false,
    }
}

/// The token count each fixed-arity keyword takes after itself; `None` for
/// the variadic `mget`/`mput` and for unknown keywords.
pub open spec fn fixed_arity(k: Seq<char>) -> Option<int> {
    if k == "open"@ || k == "get"@ || k == "put"@ {
        Some(2int)
    } else if k == "user"@ || k == "pass"@ || k == "cd"@ || k == "lcd"@ {
        Some(1int)
    } else if k == "dir"@ || k == "quit"@ {
        Some(0int)
    } else {
        None
    }
}

/// The names carried by a batch-transfer command: each residual token is
/// re-split on commas and the nonempty pieces are kept, in order.
pub open spec fn comma_names(toks: Seq<Seq<char>>) -> Seq<Seq<char>>
    decreases toks.len(),
{
    if toks.len() == 0 {
        Seq::empty()
    } else {
        split_drop(toks[0], ',') + comma_names(toks.drop_first())
    }
}

/// The meaning of one command line: leading and trailing white space is
/// trimmed, the rest is split into space-delimited tokens and read against
/// the keyword table. `None` is a grammar error.
pub open spec fn parse_line_spec(s: Seq<char>) -> Option<CommandV> {
    let t = split_drop(trim_spec(s), ' ');
    if t.len() == 0 {
        None
    } else if t[0] == "open"@ {
        if t.len() == 3 && parse_ipv4_spec(t[1]) is Some && parse_port_spec(t[2]) is Some {
            Some(CommandV::Open(parse_ipv4_spec(t[1])->0, parse_port_spec(t[2])->0))
        } else {
            None
        }
    } else if t[0] == "user"@ {
        if t.len() == 2 {
            Some(CommandV::User(t[1]))
        } else {
            None
        }
    } else if t[0] == "pass"@ {
        if t.len() == 2 {
            Some(CommandV::Password(t[1]))
        } else {
            None
        }
    } else if t[0] == "cd"@ {
        if t.len() == 2 {
            Some(CommandV::Cd(t[1]))
        } else {
            None
        }
    } else if t[0] == "lcd"@ {
        if t.len() == 2 {
            Some(CommandV::Lcd(t[1]))
        } else {
            None
        }
    } else if t[0] == "dir"@ {
        if t.len() == 1 {
            Some(CommandV::Dir)
        } else {
            None
        }
    } else if t[0] == "get"@ {
        if t.len() == 3 {
            Some(CommandV::Get(t[1], t[2]))
        } else {
            None
        }
    } else if t[0] == "put"@ {
        if t.len() == 3 {
            Some(CommandV::Put(t[1], t[2]))
        } else {
            None
        }
    } else if t[0] == "mget"@ {
        if t.len() >= 2 && comma_names(t.drop_first()).len() >= 1 {
            Some(CommandV::Mget(comma_names(t.drop_first())))
        } else {
            None
        }
    } else if t[0] == "mput"@ {
        if t.len() >= 2 && comma_names(t.drop_first()).len() >= 1 {
            Some(CommandV::Mput(comma_names(t.drop_first())))
        } else {
            None
        }
    } else if t[0] == "quit"@ {
        if t.len() == 1 {
            Some(CommandV::Quit)
        } else {
            None
        }
    } else {
        None
    }
}

/// The detail text reported for a line the grammar rejects: extra tokens
/// after a fixed-arity keyword are `trailing characters`, too few are
/// `missing argument`, and so on. Meaningful only on lines on which
/// `parse_line_spec` is `None`.
pub open spec fn parse_fail_detail(s: Seq<char>) -> Seq<char> {
    let t = split_drop(trim_spec(s), ' ');
    if t.len() == 0 {
        "empty command"@
    } else if fixed_arity(t[0]) is Some {
        if t.len() > 1 + fixed_arity(t[0])->0 {
            "trailing characters"@
        } else if t.len() < 1 + fixed_arity(t[0])->0 {
            "missing argument"@
        } else if parse_ipv4_spec(t[1]) is None {
            "invalid address"@
        } else {
            "invalid port"@
        }
    } else if t[0] == "mget"@ || t[0] == "mput"@ {
        "missing argument"@
    } else {
        "unknown command"@
    }
}

/// The line text a command is encoded as: the keyword, then its arguments
/// joined by single spaces, a multi-valued argument joined by `, `.
/// Meaningful for encodable variants only.
pub open spec fn line_of(c: CommandV) -> Seq<char> {
    match c {
        CommandV::User(n) => "user "@ + n,
        CommandV::Password(p) => "pass "@ + p,
        CommandV::Cd(d) => "cd "@ + d,
        CommandV::Dir => "dir"@,
        CommandV::Get(a, b) => "get "@ + a + " "@ + b,
        CommandV::Put(a, b) => "put "@ + a + " "@ + b,
        CommandV::Mget(ns) => "mget "@ + join_with(ns, ", "@),
        CommandV::Mput(ns) => "mput "@ + join_with(ns, ", "@),
        CommandV::Open(_, _) => Seq::empty(),
        CommandV::Lcd(_) => Seq::empty(),
        CommandV::Quit => Seq::empty(),
    }
}

/// A well-formed wire frame: nonempty, delimited by one trailing null byte.
pub open spec fn framed(b: Seq<u8>) -> bool {
    b.len() > 0 && b.last() == 0
}

/// The text bytes of a frame: everything before the null terminator.
pub open spec fn frame_content(b: Seq<u8>) -> Seq<u8> {
    b.drop_last()
}

/// Appends `names` joined by `, ` to `line`.
fn append_joined(line: &mut String, names: &Vec<String>)
    requires
        names@.len() >= 1,
    ensures
        final(line)@ == old(line)@ + join_with(names.deep_view(), ", "@),
{
    let ghost dv = names.deep_view();
    let ghost base = line@;
    let mut i: usize = 0;
    while i < names.len()
        invariant
            dv == names.deep_view(),
            dv.len() == names@.len(),
            i <= names@.len(),
            i == 0 ==> line@ == base,
            i >= 1 ==> line@ == base + join_with(dv.take(i as int), ", "@),
        decreases names@.len() - i,
    {
        proof {
            assert(names@[i as int]@ == dv[i as int]);
        }
        if i == 0 {
            line.append(names[0].as_str());
            proof {
                assert(dv.take(1) =~= seq![dv[0]]);
                assert(join_with(seq![dv[0]], ", "@) == dv[0]);
            }
        } else {
            line.append(", ");
            line.append(names[i].as_str());
            proof {
                assert(dv.take(i + 1 as int) =~= dv.take(i as int).push(dv[i as int]));
                crate::text::lemma_join_push(dv.take(i as int), dv[i as int], ", "@);
                assert(base + (join_with(dv.take(i as int), ", "@) + ", "@ + dv[i as int])
                    =~= (base + join_with(dv.take(i as int), ", "@)) + ", "@ + dv[i as int]);
            }
        }
        i += 1;
    }
    proof {
        assert(dv.take(dv.len() as int) =~= dv);
    }
}

/// Concrete shapes of the keyword literals, for reasoning about the
/// tokenization of encoded lines.
proof fn lemma_keyword_facts()
    ensures
        "open"@.len() == 4 && "open"@[0] == 'o' && sep_free("open"@, ' '),
        "user"@.len() == 4 && "user"@[0] == 'u' && sep_free("user"@, ' '),
        "pass"@.len() == 4 && "pass"@[0] == 'p' && sep_free("pass"@, ' '),
        "cd"@.len() == 2 && "cd"@[0] == 'c' && sep_free("cd"@, ' '),
        "lcd"@.len() == 3 && "lcd"@[0] == 'l' && sep_free("lcd"@, ' '),
        "dir"@.len() == 3 && "dir"@[0] == 'd' && "dir"@[2] == 'r' && sep_free("dir"@, ' '),
        "get"@.len() == 3 && "get"@[0] == 'g' && sep_free("get"@, ' '),
        "put"@.len() == 3 && "put"@[0] == 'p' && sep_free("put"@, ' '),
        "mget"@.len() == 4 && "mget"@[0] == 'm' && "mget"@[1] == 'g' && sep_free("mget"@, ' '),
        "mput"@.len() == 4 && "mput"@[0] == 'm' && "mput"@[1] == 'p' && sep_free("mput"@, ' '),
        "quit"@.len() == 4 && "quit"@[0] == 'q' && sep_free("quit"@, ' '),
        "user "@ == "user"@ + seq![' '],
        "pass "@ == "pass"@ + seq![' '],
        "cd "@ == "cd"@ + seq![' '],
        "get "@ == "get"@ + seq![' '],
        "put "@ == "put"@ + seq![' '],
        "mget "@ == "mget"@ + seq![' '],
        "mput "@ == "mput"@ + seq![' '],
        " "@ == seq![' '],
        ", "@ == seq![',', ' '],
{
    reveal_strlit("open");
    reveal_strlit("user");
    reveal_strlit("pass");
    reveal_strlit("cd");
    reveal_strlit("lcd");
    reveal_strlit("dir");
    reveal_strlit("get");
    reveal_strlit("put");
    reveal_strlit("mget");
    reveal_strlit("mput");
    reveal_strlit("quit");
    reveal_strlit("user ");
    reveal_strlit("pass ");
    reveal_strlit("cd ");
    reveal_strlit("get ");
    reveal_strlit("put ");
    reveal_strlit("mget ");
    reveal_strlit("mput ");
    reveal_strlit(" ");
    reveal_strlit(", ");
    assert("user "@ =~= "user"@ + seq![' ']);
    assert("pass "@ =~= "pass"@ + seq![' ']);
    assert("cd "@ =~= "cd"@ + seq![' ']);
    assert("get "@ =~= "get"@ + seq![' ']);
    assert("put "@ =~= "put"@ + seq![' ']);
    assert("mget "@ =~= "mget"@ + seq![' ']);
    assert("mput "@ =~= "mput"@ + seq![' ']);
    assert(" "@ =~= seq![' ']);
    assert(", "@ =~= seq![',', ' ']);
}

/// A lone separator-free keyword tokenizes to itself.
proof fn lemma_tokens_kw0(kw: Seq<char>)
    requires
        kw.len() > 0,
        sep_free(kw, ' '),
    ensures
        split_drop(kw, ' ') == seq![kw],
{
    crate::text::lemma_split_acc_all(kw, ' ', Seq::empty());
    assert(Seq::<char>::empty() + kw =~= kw);
}

/// A keyword with one token argument tokenizes to the pair.
proof fn lemma_tokens_kw1(kw: Seq<char>, a: Seq<char>)
    requires
        kw.len() > 0,
        sep_free(kw, ' '),
        token_ok(a),
    ensures
        split_drop(kw + seq![' '] + a, ' ') == seq![kw, a],
{
    assert(kw + seq![' '] + a =~= kw + (seq![' '] + a));
    crate::text::lemma_split_acc_prefix(kw, seq![' '] + a, ' ', Seq::empty());
    assert(Seq::<char>::empty() + kw =~= kw);
    crate::text::lemma_split_acc_sep(a, ' ', kw);
    crate::text::lemma_split_acc_all(a, ' ', Seq::empty());
    assert(Seq::<char>::empty() + a =~= a);
    assert(seq![kw] + seq![a] =~= seq![kw, a]);
}

/// A keyword with two token arguments tokenizes to the triple.
proof fn lemma_tokens_kw2(kw: Seq<char>, a: Seq<char>, b: Seq<char>)
    requires
        kw.len() > 0,
        sep_free(kw, ' '),
        token_ok(a),
        token_ok(b),
    ensures
        split_drop(kw + seq![' '] + a + seq![' '] + b, ' ') == seq![kw, a, b],
{
    assert(kw + seq![' '] + a + seq![' '] + b =~= kw + (seq![' '] + (a + (seq![' '] + b))));
    crate::text::lemma_split_acc_prefix(kw, seq![' '] + (a + (seq![' '] + b)), ' ', Seq::empty());
    assert(Seq::<char>::empty() + kw =~= kw);
    crate::text::lemma_split_acc_sep(a + (seq![' '] + b), ' ', kw);
    crate::text::lemma_split_acc_prefix(a, seq![' '] + b, ' ', Seq::empty());
    assert(Seq::<char>::empty() + a =~= a);
    crate::text::lemma_split_acc_sep(b, ' ', a);
    crate::text::lemma_split_acc_all(b, ' ', Seq::empty());
    assert(Seq::<char>::empty() + b =~= b);
    assert(seq![kw] + (seq![a] + seq![b]) =~= seq![kw, a, b]);
}

/// The joined name list of a batch command tokenizes to pieces whose
/// comma-resplit restores the name list unchanged.
proof fn lemma_mget_tokens(ns: Seq<Seq<char>>)
    requires
        ns.len() >= 1,
        forall|i: int| 0 <= i < ns.len() ==> name_ok(#[trigger] ns[i]),
    ensures
        split_drop(join_with(ns, ", "@), ' ').len() >= 1,
        comma_names(split_drop(join_with(ns, ", "@), ' ')) == ns,
    decreases ns.len(),
{
    reveal_strlit(", ");
    assert(", "@ =~= seq![',', ' ']);
    let j = join_with(ns, ", "@);
    if ns.len() == 1 {
        assert(j == ns[0]);
        lemma_tokens_kw0(ns[0]);
        crate::text::lemma_split_acc_all(ns[0], ',', Seq::empty());
        assert(Seq::<char>::empty() + ns[0] =~= ns[0]);
        assert(split_drop(ns[0], ',') == seq![ns[0]]);
        assert(seq![ns[0]].drop_first() =~= Seq::<Seq<char>>::empty());
        assert(comma_names(Seq::<Seq<char>>::empty()) == Seq::<Seq<char>>::empty());
        assert(seq![ns[0]] + Seq::<Seq<char>>::empty() =~= seq![ns[0]]);
        assert(comma_names(split_drop(j, ' ')) =~= seq![ns[0]]);
        assert(seq![ns[0]] =~= ns);
    } else {
        let rest = ns.drop_first();
        assert(forall|i: int| 0 <= i < rest.len() ==> name_ok(#[trigger] rest[i])) by {
            assert(forall|i: int| 0 <= i < rest.len() ==> #[trigger] rest[i] == ns[i + 1]);
        }
        lemma_mget_tokens(rest);
        let jr = join_with(rest, ", "@);
        let head = ns[0] + seq![','];
        assert(j == ns[0] + ", "@ + jr);
        assert(j =~= head + (seq![' '] + jr));
        assert(sep_free(head, ' '));
        crate::text::lemma_split_acc_prefix(head, seq![' '] + jr, ' ', Seq::empty());
        assert(Seq::<char>::empty() + head =~= head);
        crate::text::lemma_split_acc_sep(jr, ' ', head);
        let tr = split_drop(jr, ' ');
        assert(split_drop(j, ' ') == seq![head] + tr);
        assert((seq![head] + tr)[0] == head);
        assert((seq![head] + tr).drop_first() =~= tr);
        crate::text::lemma_split_acc_prefix(ns[0], seq![','], ',', Seq::empty());
        assert(Seq::<char>::empty() + ns[0] =~= ns[0]);
        crate::text::lemma_split_acc_sep(Seq::empty(), ',', ns[0]);
        assert(seq![','] + Seq::<char>::empty() =~= seq![',']);
        assert(split_drop(head, ',') =~= seq![ns[0]]);
        assert(comma_names(split_drop(j, ' ')) =~= seq![ns[0]] + comma_names(tr));
        assert(seq![ns[0]] + rest =~= ns);
    }
}

/// White space at the ends of a line never changes what it means: the
/// trimmed line parses to the same result and fails with the same detail.
pub proof fn lemma_parse_trim_invariant(s: Seq<char>)
    ensures
        parse_line_spec(trim_spec(s)) == parse_line_spec(s),
        parse_fail_detail(trim_spec(s)) == parse_fail_detail(s),
{
    crate::text::lemma_trim_idempotent(s);
}

/// The line text of a wire-legal command starts with a keyword letter and
/// ends with a payload character, so trimming leaves it untouched.
proof fn lemma_trim_line_of(c: CommandV)
    requires
        wire_legal(c),
    ensures
        trim_spec(line_of(c)) == line_of(c),
{
    lemma_keyword_facts();
    match c {
        CommandV::User(n) => {
            assert(line_of(c)[0] == 'u');
            assert(line_of(c).last() == n.last());
            crate::text::lemma_trim_id(line_of(c));
        },
        CommandV::Password(p) => {
            assert(line_of(c)[0] == 'p');
            assert(line_of(c).last() == p.last());
            crate::text::lemma_trim_id(line_of(c));
        },
        CommandV::Cd(d) => {
            assert(line_of(c)[0] == 'c');
            assert(line_of(c).last() == d.last());
            crate::text::lemma_trim_id(line_of(c));
        },
        CommandV::Dir => {
            assert(line_of(c)[0] == 'd');
            assert(line_of(c).last() == 'r');
            crate::text::lemma_trim_id(line_of(c));
        },
        CommandV::Get(a, b) => {
            assert(line_of(c)[0] == 'g');
            assert(line_of(c).last() == b.last());
            crate::text::lemma_trim_id(line_of(c));
        },
        CommandV::Put(a, b) => {
            assert(line_of(c)[0] == 'p');
            assert(line_of(c).last() == b.last());
            crate::text::lemma_trim_id(line_of(c));
        },
        CommandV::Mget(ns) => {
            assert(name_ok(ns[ns.len() - 1]));
            crate::text::lemma_join_last(ns, ", "@);
            assert(line_of(c)[0] == 'm');
            assert(line_of(c).last() == ns.last().last());
            crate::text::lemma_trim_id(line_of(c));
        },
        CommandV::Mput(ns) => {
            assert(name_ok(ns[ns.len() - 1]));
            crate::text::lemma_join_last(ns, ", "@);
            assert(line_of(c)[0] == 'm');
            assert(line_of(c).last() == ns.last().last());
            crate::text::lemma_trim_id(line_of(c));
        },
        CommandV::Open(_, _) => {},
        CommandV::Lcd(_) => {},
        CommandV::Quit => {},
    }
}

/// The round-trip law at the line level: the line text of any wire-legal
/// command parses back to exactly that command.
#[verifier::rlimit(60)]
pub proof fn lemma_parse_line_of(c: CommandV)
    requires
        wire_legal(c),
    ensures
        parse_line_spec(line_of(c)) == Some(c),
{
    lemma_keyword_facts();
    lemma_trim_line_of(c);
    match c {
        CommandV::User(n) => {
            lemma_tokens_kw1("user"@, n);
            assert(line_of(c) == "user"@ + seq![' '] + n);
        },
        CommandV::Password(p) => {
            lemma_tokens_kw1("pass"@, p);
            assert(line_of(c) == "pass"@ + seq![' '] + p);
        },
        CommandV::Cd(d) => {
            lemma_tokens_kw1("cd"@, d);
            assert(line_of(c) == "cd"@ + seq![' '] + d);
        },
        CommandV::Dir => {
            lemma_tokens_kw0("dir"@);
        },
        CommandV::Get(a, b) => {
            lemma_tokens_kw2("get"@, a, b);
            assert(line_of(c) == "get"@ + seq![' '] + a + seq![' '] + b);
        },
        CommandV::Put(a, b) => {
            lemma_tokens_kw2("put"@, a, b);
            assert(line_of(c) == "put"@ + seq![' '] + a + seq![' '] + b);
        },
        CommandV::Mget(ns) => {
            lemma_mget_tokens(ns);
            let j = join_with(ns, ", "@);
            assert(line_of(c) =~= "mget"@ + (seq![' '] + j));
            crate::text::lemma_split_acc_prefix("mget"@, seq![' '] + j, ' ', Seq::empty());
            assert(Seq::<char>::empty() + "mget"@ =~= "mget"@);
            crate::text::lemma_split_acc_sep(j, ' ', "mget"@);
            let tj = split_drop(j, ' ');
            let t = split_drop(line_of(c), ' ');
            assert(t == seq!["mget"@] + tj);
            assert(t.len() >= 2);
            assert(t.drop_first() =~= tj);
            assert(t[0] == "mget"@);
        },
        CommandV::Mput(ns) => {
            lemma_mget_tokens(ns);
            let j = join_with(ns, ", "@);
            assert(line_of(c) =~= "mput"@ + (seq![' '] + j));
            crate::text::lemma_split_acc_prefix("mput"@, seq![' '] + j, ' ', Seq::empty());
            assert(Seq::<char>::empty() + "mput"@ =~= "mput"@);
            crate::text::lemma_split_acc_sep(j, ' ', "mput"@);
            let tj = split_drop(j, ' ');
            let t = split_drop(line_of(c), ' ');
            assert(t == seq!["mput"@] + tj);
            assert(t.len() >= 2);
            assert(t.drop_first() =~= tj);
            assert(t[0] == "mput"@);
        },
        CommandV::Open(_, _) => {},
        CommandV::Lcd(_) => {},
        CommandV::Quit => {},
    }
}

/// The round-trip law at the frame level: the encoded frame of any
/// wire-legal command is well formed, carries valid UTF-8, and decodes to
/// exactly that command.
pub proof fn lemma_frame_round_trip(c: CommandV)
    requires
        wire_legal(c),
    ensures
        ({
            let frame = encode_utf8(line_of(c)).push(0u8);
            framed(frame) && valid_utf8(frame_content(frame)) && parse_line_spec(
                decode_utf8(frame_content(frame)),
            ) == Some(c)
        }),
{
    let line = line_of(c);
    let frame = encode_utf8(line).push(0u8);
    vstd::utf8::encode_utf8_valid_utf8(line);
    vstd::utf8::encode_utf8_decode_utf8(line);
    assert(frame.last() == 0);
    assert(frame_content(frame) =~= encode_utf8(line));
    lemma_parse_line_of(c);
}

/// Relies on str::from_utf8: it returns `Ok` exactly when the input is
/// valid UTF-8, and then yields the text those bytes encode.
#[verifier::external_body]
fn bytes_as_str(b: &[u8]) -> (r: Option<&str>)
    ensures
        r is Some <==> valid_utf8(b@),
        r matches Some(s) ==> s@ == decode_utf8(b@),
{
    core::str::from_utf8(b).ok()
}

fn parse_err(msg: &str) -> (r: MiniFtpError)
    ensures
        r matches MiniFtpError::CommandParseError(d) && d@ == msg@,
{
    MiniFtpError::CommandParseError(String::from_str(msg))
}

/// The nonempty comma-separated pieces of every token after the keyword,
/// flattened in order.
fn collect_names(toks: &Vec<String>) -> (r: Vec<String>)
    requires
        toks@.len() >= 1,
    ensures
        r.deep_view() == comma_names(toks.deep_view().drop_first()),
{
    let ghost dv = toks.deep_view();
    let mut r: Vec<String> = Vec::new();
    let mut i: usize = 1;
    proof {
        assert(dv.len() == toks@.len());
        assert(dv.skip(1) =~= dv.drop_first());
        assert(r.deep_view() + comma_names(dv.skip(1)) =~= comma_names(dv.drop_first()));
    }
    while i < toks.len()
        invariant
            1 <= i <= toks@.len(),
            dv == toks.deep_view(),
            dv.len() == toks@.len(),
            r.deep_view() + comma_names(dv.skip(i as int)) == comma_names(dv.drop_first()),
        decreases toks@.len() - i,
    {
        let ghost pre = r.deep_view();
        let mut pieces = crate::text::split_string(toks[i].as_str(), ',');
        proof {
            assert(toks@[i as int]@ == dv[i as int]);
            assert(dv.skip(i as int)[0] == dv[i as int]);
            assert(dv.skip(i as int).drop_first() =~= dv.skip(i + 1 as int));
        }
        let ghost pv = pieces.deep_view();
        r.append(&mut pieces);
        proof {
            assert(r.deep_view() =~= pre + pv);
            assert((pre + pv) + comma_names(dv.skip(i + 1 as int)) =~= pre + (pv + comma_names(
                dv.skip(i + 1 as int),
            )));
        }
        i += 1;
    }
    proof {
        assert(dv.skip(toks@.len() as int) =~= Seq::<Seq<char>>::empty());
        assert(r.deep_view() + Seq::<Seq<char>>::empty() =~= r.deep_view());
    }
    r
}

impl Command {
    /// Parses one human-typed line: white space is trimmed from both ends,
    /// tokens are split on runs of spaces, the first selects the keyword,
    /// the rest are its arguments. Every failure is a recoverable
    /// `CommandParseError` carrying exactly the detail `parse_fail_detail`
    /// assigns, `trailing characters` among them.
    pub fn from_str(inp: &str) -> (r: Result<Command, MiniFtpError>)
        ensures
            match r {
                Ok(c) => parse_line_spec(inp@) == Some(c@),
                Err(e) => parse_line_spec(inp@) is None && (e matches
                    MiniFtpError::CommandParseError(d) && d@ == parse_fail_detail(inp@)),
            },
    {
        let trimmed = trim_str(inp);
        let toks = split_string(trimmed, ' ');
        let ghost t = split_drop(trim_spec(inp@), ' ');
        proof {
            assert(toks.deep_view() == t);
            assert(toks@.len() == t.len());
            assert(forall|k: int| 0 <= k < t.len() ==> toks@[k]@ == #[trigger] t[k]);
        }
        if toks.len() == 0 {
            return Err(parse_err("empty command"));
        }
        proof {
            lemma_keyword_facts();
        }
        let kw = toks[0].as_str();
        if str_eq(kw, "open") {
            if toks.len() < 3 {
                return Err(parse_err("missing argument"));
            }
            if toks.len() > 3 {
                return Err(parse_err("trailing characters"));
            }
            let ip = match parse_ipv4(toks[1].as_str()) {
                Some(ip) => ip,
                None => {
                    return Err(parse_err("invalid address"));
                },
            };
            let port = match parse_port(toks[2].as_str()) {
                Some(p) => p,
                None => {
                    return Err(parse_err("invalid port"));
                },
            };
            Ok(Command::Open(ip, port))
        } else if str_eq(kw, "user") {
            if toks.len() < 2 {
                return Err(parse_err("missing argument"));
            }
            if toks.len() > 2 {
                return Err(parse_err("trailing characters"));
            }
            Ok(Command::User(toks[1].clone()))
        } else if str_eq(kw, "pass") {
            if toks.len() < 2 {
                return Err(parse_err("missing argument"));
            }
            if toks.len() > 2 {
                return Err(parse_err("trailing characters"));
            }
            Ok(Command::Password(toks[1].clone()))
        } else if str_eq(kw, "cd") {
            if toks.len() < 2 {
                return Err(parse_err("missing argument"));
            }
            if toks.len() > 2 {
                return Err(parse_err("trailing characters"));
            }
            Ok(Command::Cd(toks[1].clone()))
        } else if str_eq(kw, "lcd") {
            if toks.len() < 2 {
                return Err(parse_err("missing argument"));
            }
            if toks.len() > 2 {
                return Err(parse_err("trailing characters"));
            }
            Ok(Command::Lcd(toks[1].clone()))
        } else if str_eq(kw, "dir") {
            if toks.len() > 1 {
                return Err(parse_err("trailing characters"));
            }
            Ok(Command::Dir)
        } else if str_eq(kw, "get") {
            if toks.len() < 3 {
                return Err(parse_err("missing argument"));
            }
            if toks.len() > 3 {
                return Err(parse_err("trailing characters"));
            }
            Ok(Command::Get(toks[1].clone(), toks[2].clone()))
        } else if str_eq(kw, "put") {
            if toks.len() < 3 {
                return Err(parse_err("missing argument"));
            }
            if toks.len() > 3 {
                return Err(parse_err("trailing characters"));
            }
            Ok(Command::Put(toks[1].clone(), toks[2].clone()))
        } else if str_eq(kw, "mget") {
            if toks.len() < 2 {
                return Err(parse_err("missing argument"));
            }
            let names = collect_names(&toks);
            if names.len() == 0 {
                return Err(parse_err("missing argument"));
            }
            proof {
                assert(names.deep_view().len() == names@.len());
            }
            Ok(Command::Mget(names))
        } else if str_eq(kw, "mput") {
            if toks.len() < 2 {
                return Err(parse_err("missing argument"));
            }
            let names = collect_names(&toks);
            if names.len() == 0 {
                return Err(parse_err("missing argument"));
            }
            proof {
                assert(names.deep_view().len() == names@.len());
            }
            Ok(Command::Mput(names))
        } else if str_eq(kw, "quit") {
            if toks.len() > 1 {
                return Err(parse_err("trailing characters"));
            }
            Ok(Command::Quit)
        } else {
            Err(parse_err("unknown command"))
        }
    }

    /// Encodes `self` for the wire: the line text as UTF-8, then exactly one
    /// null byte. `Open`, `Lcd` and `Quit` are client-local and have no
    /// encoding, so they are excluded up front rather than met at run time.
    pub fn to_bytes(&self) -> (r: Vec<u8>)
        requires
            encodable(self@),
        ensures
            r@ == encode_utf8(line_of(self@)).push(0u8),
    {
        let mut line = String::new();
        match self {
            Command::User(n) => {
                line.append("user ");
                line.append(n.as_str());
            },
            Command::Password(p) => {
                line.append("pass ");
                line.append(p.as_str());
            },
            Command::Cd(d) => {
                line.append("cd ");
                line.append(d.as_str());
            },
            Command::Dir => {
                line.append("dir");
            },
            Command::Get(a, b) => {
                line.append("get ");
                line.append(a.as_str());
                line.append(" ");
                line.append(b.as_str());
            },
            Command::Put(a, b) => {
                line.append("put ");
                line.append(a.as_str());
                line.append(" ");
                line.append(b.as_str());
            },
            Command::Mget(ns) => {
                line.append("mget ");
                if ns.len() == 0 {
                    proof {
                        assert(ns.deep_view().len() == 0);
                        assert(join_with(ns.deep_view(), ", "@) == Seq::<char>::empty());
                    }
                } else {
                    append_joined(&mut line, ns);
                }
            },
            Command::Mput(ns) => {
                line.append("mput ");
                if ns.len() == 0 {
                    proof {
                        assert(ns.deep_view().len() == 0);
                        assert(join_with(ns.deep_view(), ", "@) == Seq::<char>::empty());
                    }
                } else {
                    append_joined(&mut line, ns);
                }
            },
            Command::Open(_, _) => {
                proof {
                    assert(false);
                }
            },
            Command::Lcd(_) => {
                proof {
                    assert(false);
                }
            },
            Command::Quit => {
                proof {
                    assert(false);
                }
            },
        }
        proof {
            assert(line@ =~= line_of(self@));
        }
        let mut bytes = line.as_str().as_bytes_vec();
        bytes.push(0u8);
        bytes
    }

    /// Decodes one wire frame. A missing terminator or empty buffer is an
    /// `InvalidMessage` with the detail named below; text that is not UTF-8
    /// is a `Utf8Error`; anything else is read by the same grammar as a
    /// typed line.
    pub fn from_bytes(buf: &[u8]) -> (r: Result<Command, MiniFtpError>)
        ensures
            buf@.len() == 0 ==> (r matches Err(MiniFtpError::InvalidMessage(d)) && d@
                == "command cannot be empty"@),
            buf@.len() > 0 && buf@.last() != 0 ==> (r matches Err(MiniFtpError::InvalidMessage(d))
                && d@ == "command message must end in null"@),
            framed(buf@) && !valid_utf8(frame_content(buf@)) ==> r matches Err(
                MiniFtpError::Utf8Error,
            ),
            framed(buf@) && valid_utf8(frame_content(buf@)) ==> match parse_line_spec(
                decode_utf8(frame_content(buf@)),
            ) {
                Some(c) => r matches Ok(cmd) && cmd@ == c,
                None => (r matches Err(MiniFtpError::CommandParseError(d)) && d@
                    == parse_fail_detail(decode_utf8(frame_content(buf@)))),
            },
    {
        if buf.len() == 0 {
            return Err(
                MiniFtpError::InvalidMessage(String::from_str("command cannot be empty")),
            );
        }
        if buf[buf.len() - 1] != 0 {
            return Err(
                MiniFtpError::InvalidMessage(String::from_str("command message must end in null")),
            );
        }
        let content = &buf[0..buf.len() - 1];
        proof {
            assert(content@ =~= frame_content(buf@));
        }
        match bytes_as_str(content) {
            Some(text) => Command::from_str(text),
            None => Err(MiniFtpError::Utf8Error),
        }
    }

    /// Encodes `self` and decodes the resulting frame, returning the decoded
    /// command: the wire codec loses nothing on wire-legal commands.
    pub fn round_trip(&self) -> (r: Command)
        requires
            wire_legal(self@),
        ensures
            r@ == self@,
    {
        let bytes = self.to_bytes();
        proof {
            lemma_frame_round_trip(self@);
            assert(bytes@.last() == 0);
        }
        match Command::from_bytes(bytes.as_slice()) {
            Ok(cmd) => cmd,
            Err(_) => {
                proof {
                    assert(false);
                }
                Command::Quit
            },
        }
    }
}

} // verus!
