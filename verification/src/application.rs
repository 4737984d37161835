//! The external chat application that the dashboard evaluates: which
//! role a process plays, how its settings are read, and how the data of
//! a download is cut into chunks.

use vstd::prelude::*;
use crate::text::join_texts;

verus! {

/// The role of a process of the application.
#[derive(Clone, Copy, Debug, PartialEq, Eq, Structural)]
pub enum Role {
    Dashboard,
    Server,
    Client,
}

/// The role named by the `ROLE` setting; without one, the process is the
/// dashboard.
pub fn role_from(setting: Option<&str>) -> (r: Result<Role, String>)
    ensures
        match setting {
            None => r == Ok::<Role, String>(Role::Dashboard),
            Some(s) => if s@ == "dashboard"@ {
                r == Ok::<Role, String>(Role::Dashboard)
            } else if s@ == "server"@ {
                r == Ok::<Role, String>(Role::Server)
            } else if s@ == "client"@ {
                r == Ok::<Role, String>(Role::Client)
            } else {
                r matches Err(e) && e@ == "Invalid ROLE. Expected 'dashboard', 'server' or 'client'"@
            },
        },
{
    match setting {
        None => Ok(Role::Dashboard),
        Some(s) => {
            let value = String::from_str(s);
            if value == String::from_str("dashboard") {
                Ok(Role::Dashboard)
            } else if value == String::from_str("server") {
                Ok(Role::Server)
            } else if value == String::from_str("client") {
                Ok(Role::Client)
            } else {
                Err(String::from_str("Invalid ROLE. Expected 'dashboard', 'server' or 'client'"))
            }
        },
    }
}

/// The chat message that a client process sends: its author names the
/// client (`CLIENT_ID`, 1 without one).
pub fn client_greeting(client_id: Option<&str>) -> (r: (String, String))
    ensures
        r.0@ == "Client "@ + match client_id {
            Some(id) => id@,
            None => "1"@,
        },
        r.1@ == "Hello, Server!"@,
{
    let mut author = String::from_str("Client ");
    match client_id {
        Some(id) => author.append(id),
        None => author.append("1"),
    }
    (author, String::from_str("Hello, Server!"))
}

/// The fields of a comma-separated text, empty ones included.
pub open spec fn comma_fields(text: Seq<char>) -> Seq<Seq<char>>
    decreases text.len(),
{
    if text.len() == 0 {
        seq![Seq::empty()]
    } else {
        let fields = comma_fields(text.drop_last());
        if text.last() == ',' {
            fields.push(Seq::empty())
        } else {
            fields.update(fields.len() - 1, fields.last().push(text.last()))
        }
    }
}

/// The non-empty fields of a comma-separated text, in order.
pub open spec fn comma_list(text: Seq<char>) -> Seq<Seq<char>> {
    comma_fields(text).filter(|f: Seq<char>| f.len() > 0)
}

proof fn lemma_comma_fields_nonempty(text: Seq<char>)
    ensures
        comma_fields(text).len() > 0,
    decreases text.len(),
{
    if text.len() > 0 {
        lemma_comma_fields_nonempty(text.drop_last());
    }
}

/// Reads a comma-separated setting (cipher suites, key exchange groups):
/// its non-empty fields, in order.
pub fn parse_comma_list(text: &str) -> (items: Vec<String>)
    ensures
        items@.map_values(|s: String| s@) == comma_list(text@),
{
    let ghost chars = text@;
    let mut items: Vec<String> = Vec::new();
    let mut current = String::new();
    let mut i: usize = 0;
    let n = text.unicode_len();
    proof {
        reveal(Seq::filter);
        assert(chars.take(0) =~= Seq::<char>::empty());
        assert(comma_fields(chars.take(0)).drop_last() =~= Seq::<Seq<char>>::empty());
    }
    while i < n
        invariant
            i <= n,
            n == chars.len(),
            chars == text@,
            comma_fields(chars.take(i as int)).len() > 0,
            current@ == comma_fields(chars.take(i as int)).last(),
            items@.map_values(|s: String| s@) == comma_fields(chars.take(i as int)).drop_last().filter(
                |f: Seq<char>| f.len() > 0,
            ),
        decreases n - i,
    {
        let c = text.get_char(i);
        let ghost prefix = chars.take(i as int);
        let ghost next = chars.take(i + 1);
        proof {
            assert(next.drop_last() =~= prefix);
            assert(next.last() == c);
            lemma_comma_fields_nonempty(prefix);
        }
        let ghost fields = comma_fields(prefix);
        if c == ',' {
            let ghost before = items@;
            if current.unicode_len() > 0 {
                let mut finished = String::new();
                std::mem::swap(&mut finished, &mut current);
                items.push(finished);
            } else {
                current = String::new();
            }
            proof {
                reveal(Seq::filter);
                assert(comma_fields(next) == fields.push(Seq::empty()));
                assert(comma_fields(next).drop_last() =~= fields);
                assert(fields =~= fields.drop_last().push(fields.last()));
                assert(items@.map_values(|s: String| s@) =~= (if fields.last().len() > 0 {
                    before.map_values(|s: String| s@).push(fields.last())
                } else {
                    before.map_values(|s: String| s@)
                }));
            }
        } else {
            let mut one = String::new();
            crate::text::push_char(&mut one, c);
            current.append(one.as_str());
            proof {
                assert(comma_fields(next) == fields.update(fields.len() - 1, fields.last().push(c)));
                assert(comma_fields(next).drop_last() =~= fields.drop_last());
                assert(current@ =~= fields.last().push(c));
            }
        }
        i = i + 1;
    }
    proof {
        reveal(Seq::filter);
        assert(chars.take(n as int) =~= chars);
        let fields = comma_fields(chars);
        assert(fields =~= fields.drop_last().push(fields.last()));
    }
    if current.unicode_len() > 0 {
        items.push(current);
    }
    assert(items@.map_values(|s: String| s@) =~= comma_list(chars)) by {
        reveal(Seq::filter);
        let fields = comma_fields(chars);
        assert(fields =~= fields.drop_last().push(fields.last()));
    }
    items
}

/// Whether a text is a field that survives the comma-separated form: not
/// empty, without comma.
pub open spec fn plain_field(f: Seq<char>) -> bool {
    f.len() > 0 && !f.contains(',')
}

/// Appending comma-free text extends the last field.
proof fn lemma_fields_extend(t: Seq<char>, f: Seq<char>)
    requires
        !f.contains(','),
    ensures
        comma_fields(t + f) == comma_fields(t).update(
            comma_fields(t).len() - 1,
            comma_fields(t).last() + f,
        ),
    decreases f.len(),
{
    lemma_comma_fields_nonempty(t);
    let fields = comma_fields(t);
    if f.len() == 0 {
        assert(t + f =~= t);
        assert(fields.last() + f =~= fields.last());
        assert(fields.update(fields.len() - 1, fields.last()) =~= fields);
    } else {
        let g = f.drop_last();
        let c = f.last();
        assert(!g.contains(',')) by {
            if g.contains(',') {
                let k = choose|k: int| 0 <= k < g.len() && g[k] == ',';
                assert(f[k] == ',');
            }
        }
        assert(c != ',') by {
            assert(f[f.len() - 1] == c);
        }
        lemma_fields_extend(t, g);
        lemma_comma_fields_nonempty(t + g);
        assert((t + f).drop_last() =~= t + g);
        assert((t + f).last() == c);
        let inner = comma_fields(t + g);
        assert(inner == fields.update(fields.len() - 1, fields.last() + g));
        assert(comma_fields(t + f) == inner.update(inner.len() - 1, inner.last().push(c)));
        assert(inner.last() == fields.last() + g);
        assert((fields.last() + g).push(c) =~= fields.last() + f);
        assert(comma_fields(t + f) =~= fields.update(fields.len() - 1, fields.last() + f));
    }
}

/// Joining plain fields with commas gives a text whose fields are they.
proof fn lemma_fields_of_join(items: Seq<Seq<char>>)
    requires
        items.len() >= 1,
        forall|i: int| 0 <= i < items.len() ==> !(#[trigger] items[i]).contains(','),
    ensures
        comma_fields(join_texts(items, ","@)) == items,
    decreases items.len(),
{
    reveal_strlit(",");
    if items.len() == 1 {
        lemma_fields_extend(Seq::empty(), items[0]);
        assert(Seq::<char>::empty() + items[0] =~= items[0]);
        assert(comma_fields(Seq::<char>::empty()) == seq![Seq::<char>::empty()]);
        assert(Seq::<char>::empty() + items[0] =~= items[0]);
        assert(seq![Seq::<char>::empty()].update(0, Seq::<char>::empty() + items[0]) =~= items);
    } else {
        let init = items.drop_last();
        assert forall|i: int| 0 <= i < init.len() implies !(#[trigger] init[i]).contains(',') by {
            assert(init[i] == items[i]);
        }
        lemma_fields_of_join(init);
        let j = join_texts(init, ","@);
        let jc = j + ","@;
        assert(jc.drop_last() =~= j);
        assert(jc.last() == ',');
        assert(comma_fields(jc) == comma_fields(j).push(Seq::empty()));
        assert(!items.last().contains(',')) by {
            assert(items[items.len() - 1] == items.last());
        }
        lemma_fields_extend(jc, items.last());
        assert(join_texts(items, ","@) == j + ","@ + items.last());
        let pushed = init.push(Seq::<char>::empty());
        assert(pushed.update(pushed.len() - 1, pushed.last() + items.last()) =~= items) by {
            assert(Seq::<char>::empty() + items.last() =~= items.last());
        }
    }
}

/// Every element satisfies the predicate: filtering keeps them all.
proof fn lemma_filter_keeps_all(s: Seq<Seq<char>>)
    requires
        forall|i: int| 0 <= i < s.len() ==> (#[trigger] s[i]).len() > 0,
    ensures
        s.filter(|f: Seq<char>| f.len() > 0) == s,
    decreases s.len(),
{
    reveal(Seq::filter);
    if s.len() > 0 {
        assert forall|i: int| 0 <= i < s.drop_last().len() implies (#[trigger] s.drop_last()[i]).len()
            > 0 by {
            assert(s.drop_last()[i] == s[i]);
        }
        lemma_filter_keeps_all(s.drop_last());
        assert(s.last().len() > 0) by {
            assert(s[s.len() - 1] == s.last());
        }
        assert(s.drop_last().push(s.last()) =~= s);
    }
}

/// What the dashboard writes as a comma-separated setting, the process
/// it starts reads back: for non-empty fields without commas, reading
/// the joined text gives the fields again.
pub proof fn law_comma_list_round_trip(items: Seq<Seq<char>>)
    requires
        forall|i: int| 0 <= i < items.len() ==> plain_field(#[trigger] items[i]),
    ensures
        comma_list(join_texts(items, ","@)) == items,
{
    reveal(Seq::filter);
    if items.len() == 0 {
        assert(comma_fields(Seq::<char>::empty()) == seq![Seq::<char>::empty()]);
        let one = seq![Seq::<char>::empty()];
        assert(one.drop_last() =~= Seq::<Seq<char>>::empty());
        assert(one.drop_last().filter(|f: Seq<char>| f.len() > 0) == one.drop_last());
        assert(one.last().len() == 0);
        assert(one.filter(|f: Seq<char>| f.len() > 0) == one.drop_last().filter(
            |f: Seq<char>| f.len() > 0,
        ));
        assert(join_texts(items, ","@) == Seq::<char>::empty());
        assert(comma_list(Seq::<char>::empty()) =~= Seq::<Seq<char>>::empty());
        assert(items =~= Seq::<Seq<char>>::empty());
    } else {
        assert forall|i: int| 0 <= i < items.len() implies !(#[trigger] items[i]).contains(',') by {
            assert(plain_field(items[i]));
        }
        lemma_fields_of_join(items);
        assert forall|i: int| 0 <= i < items.len() implies (#[trigger] items[i]).len() > 0 by {
            assert(plain_field(items[i]));
        }
        lemma_filter_keeps_all(items);
    }
}

/// The size of the chunks in which a download is sent: 1 MiB.
pub const CHUNK_SIZE: u64 = 1048576;

/// The number of chunks of a download of `total` bytes: the last one may
/// be shorter than the others.
pub open spec fn chunks_of(total: int) -> int {
    (total + CHUNK_SIZE - 1) / (CHUNK_SIZE as int)
}

/// The size of chunk `i` of a download of `total` bytes.
pub open spec fn chunk_len(total: int, i: int) -> int {
    if total - i * CHUNK_SIZE < CHUNK_SIZE {
        total - i * CHUNK_SIZE
    } else {
        CHUNK_SIZE as int
    }
}

/// The number of chunks of a download.
pub fn chunk_count(total_size: u64) -> (n: u64)
    requires
        total_size <= u64::MAX - CHUNK_SIZE,
    ensures
        n == chunks_of(total_size as int),
{
    (total_size + CHUNK_SIZE - 1) / CHUNK_SIZE
}

/// The size of chunk `chunk_id` of a download.
pub fn chunk_size(total_size: u64, chunk_id: u64) -> (size: u64)
    requires
        total_size <= u64::MAX - CHUNK_SIZE,
        chunk_id < chunks_of(total_size as int),
    ensures
        size == chunk_len(total_size as int, chunk_id as int),
{
    proof {
        lemma_chunk_starts_inside(total_size as int, chunk_id as int);
    }
    let offset = chunk_id * CHUNK_SIZE;
    let remaining = total_size - offset;
    if remaining < CHUNK_SIZE {
        remaining
    } else {
        CHUNK_SIZE
    }
}

/// A chunk starts inside the download.
proof fn lemma_chunk_starts_inside(total: int, i: int)
    requires
        0 <= total,
        0 <= i < chunks_of(total),
    ensures
        i * CHUNK_SIZE < total,
{
    assert(i * CHUNK_SIZE < total) by (nonlinear_arith)
        requires
            0 <= total,
            0 <= i,
            i < (total + 1048575) / 1048576,
    ;
}

/// The bytes in the first `n` chunks of a download of `total` bytes.
pub open spec fn bytes_in_chunks(total: int, n: nat) -> int
    decreases n,
{
    if n == 0 {
        0
    } else {
        bytes_in_chunks(total, (n - 1) as nat) + chunk_len(total, n - 1)
    }
}

proof fn lemma_bytes_in_chunks(total: int, n: nat)
    requires
        0 <= total,
        n <= chunks_of(total),
    ensures
        bytes_in_chunks(total, n) == if n * CHUNK_SIZE <= total {
            n * CHUNK_SIZE
        } else {
            total
        },
    decreases n,
{
    if n > 0 {
        lemma_bytes_in_chunks(total, (n - 1) as nat);
        lemma_chunk_starts_inside(total, n - 1);
    }
}

/// The chunks of a download carry exactly the requested bytes: each
/// chunk holds between 1 byte and `CHUNK_SIZE` bytes, and together they
/// hold `total_size` bytes.
pub proof fn law_chunks_cover_download(total_size: u64)
    requires
        total_size <= u64::MAX - CHUNK_SIZE,
    ensures
        bytes_in_chunks(total_size as int, chunks_of(total_size as int) as nat) == total_size,
        forall|i: int|
            0 <= i < chunks_of(total_size as int) ==> 0 < #[trigger] chunk_len(total_size as int, i)
                <= CHUNK_SIZE,
{
    let total = total_size as int;
    let n = chunks_of(total);
    lemma_bytes_in_chunks(total, n as nat);
    assert(n * CHUNK_SIZE >= total) by (nonlinear_arith)
        requires
            0 <= total,
            n == (total + 1048575) / 1048576,
    ;
    assert forall|i: int| 0 <= i < chunks_of(total) implies 0 < #[trigger] chunk_len(total, i)
        <= CHUNK_SIZE by {
        lemma_chunk_starts_inside(total, i);
    }
}

} // verus!
