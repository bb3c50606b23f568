//! The persisted form of the profile store and of the recency record: a
//! stable, human-readable rendering, one profile object per line, together
//! with its parser. Saving a list and reading the text back yields the
//! same profiles field for field; text in any other shape is rejected and
//! the caller degrades to an empty store.

use vstd::prelude::*;
use vstd::string::StrSliceExecFns;
use vstd::string::StringExecFns;

use crate::server::Server;
use crate::server::ServerV;
use crate::server::views;

verus! {

// ---------------------------------------------------------------------------
// The written form
// ---------------------------------------------------------------------------

/// A field value with the two delimiter characters escaped: a backslash
/// in front of every quote and backslash, everything else verbatim.
pub open spec fn esc(s: Seq<char>) -> Seq<char>
    decreases s.len(),
{
    if s.len() == 0 {
        Seq::empty()
    } else {
        let c = s[0];
        (if c == '"' || c == '\\' {
            seq!['\\', c]
        } else {
            seq![c]
        }) + esc(s.drop_first())
    }
}

/// One profile as written: an indented object with the five fields in
/// fixed order, each value quoted and escaped.
pub open spec fn enc_record(v: ServerV) -> Seq<char> {
    "  {\"name\": \""@ + esc(v.name) + "\""@ + ", \"user\": \""@ + esc(v.user) + "\""@
        + ", \"host\": \""@ + esc(v.host) + "\""@ + ", \"port\": \""@ + esc(v.port) + "\""@
        + ", \"jump_host\": \""@ + esc(v.jump_host) + "\""@ + "}"@
}

/// The records of a non-empty list, one per line, comma-separated.
pub open spec fn enc_body(l: Seq<ServerV>) -> Seq<char>
    recommends
        l.len() > 0,
    decreases l.len(),
{
    if l.len() <= 1 {
        enc_record(l[0])
    } else {
        enc_record(l[0]) + ",\n"@ + enc_body(l.drop_first())
    }
}

/// A whole profile list as written: the empty list is a bare pair of
/// brackets, anything else a bracketed block of records.
pub open spec fn enc_list(l: Seq<ServerV>) -> Seq<char> {
    if l.len() == 0 {
        "[]"@
    } else {
        "[\n"@ + enc_body(l) + "\n]"@
    }
}

/// The recency record as written: the bare word `null`, or the quoted and
/// escaped identity key.
pub open spec fn enc_recent(k: Option<Seq<char>>) -> Seq<char> {
    match k {
        None => "null"@,
        Some(s) => "\""@ + esc(s) + "\""@,
    }
}

// ---------------------------------------------------------------------------
// The accepted form
// ---------------------------------------------------------------------------

/// The text holds `lit` starting at position `i`.
pub open spec fn at_lit(s: Seq<char>, i: int, lit: Seq<char>) -> bool {
    &&& 0 <= i
    &&& i + lit.len() <= s.len()
    &&& s.subrange(i, i + lit.len()) == lit
}

/// Read a quoted value from position `i` up to its closing quote: a
/// backslash takes the following character verbatim. Yields the value
/// and the position after the quote.
pub open spec fn dec_str(s: Seq<char>, i: int) -> Option<(Seq<char>, int)>
    decreases s.len() - i,
{
    if i < 0 || i >= s.len() {
        None
    } else if s[i] == '"' {
        Some((Seq::empty(), i + 1))
    } else if s[i] == '\\' {
        if i + 1 < s.len() {
            match dec_str(s, i + 2) {
                None => None,
                Some((t, j)) => Some((seq![s[i + 1]] + t, j)),
            }
        } else {
            None
        }
    } else {
        match dec_str(s, i + 1) {
            None => None,
            Some((t, j)) => Some((seq![s[i]] + t, j)),
        }
    }
}

/// Read one profile object starting at position `i`. The trailing
/// field may be absent in text written before relays were stored; it
/// then reads as empty.
pub open spec fn dec_record(s: Seq<char>, i: int) -> Option<(ServerV, int)> {
    if !at_lit(s, i, "  {\"name\": \""@) {
        None
    } else {
        match dec_str(s, i + "  {\"name\": \""@.len()) {
            None => None,
            Some((name, i1)) => if !at_lit(s, i1, ", \"user\": \""@) {
                None
            } else {
                match dec_str(s, i1 + ", \"user\": \""@.len()) {
                    None => None,
                    Some((user, i2)) => if !at_lit(s, i2, ", \"host\": \""@) {
                        None
                    } else {
                        match dec_str(s, i2 + ", \"host\": \""@.len()) {
                            None => None,
                            Some((host, i3)) => if !at_lit(s, i3, ", \"port\": \""@) {
                                None
                            } else {
                                match dec_str(s, i3 + ", \"port\": \""@.len()) {
                                    None => None,
                                    Some((port, i4)) => if at_lit(
                                        s,
                                        i4,
                                        ", \"jump_host\": \""@,
                                    ) {
                                        match dec_str(s, i4 + ", \"jump_host\": \""@.len()) {
                                            None => None,
                                            Some((jump, i5)) => if at_lit(s, i5, "}"@) {
                                                Some(
                                                    (
                                                        ServerV {
                                                            name,
                                                            user,
                                                            host,
                                                            port,
                                                            jump_host: jump,
                                                        },
                                                        i5 + 1,
                                                    ),
                                                )
                                            } else {
                                                None
                                            },
                                        }
                                    } else if at_lit(s, i4, "}"@) {
                                        Some(
                                            (
                                                ServerV {
                                                    name,
                                                    user,
                                                    host,
                                                    port,
                                                    jump_host: Seq::empty(),
                                                },
                                                i4 + 1,
                                            ),
                                        )
                                    } else {
                                        None
                                    },
                                }
                            },
                        }
                    },
                }
            },
        }
    }
}

/// Read one or more comma-separated profile objects starting at `i`.
pub open spec fn dec_body(s: Seq<char>, i: int) -> Option<(Seq<ServerV>, int)>
    decreases s.len() - i,
{
    match dec_record(s, i) {
        None => None,
        Some((v, j)) => if j <= i {
            None
        } else if j + 2 <= s.len() && at_lit(s, j, ",\n"@) {
            match dec_body(s, j + 2) {
                None => None,
                Some((l, k)) => Some((seq![v] + l, k)),
            }
        } else {
            Some((seq![v], j))
        },
    }
}

/// Read a whole profile list; only the exact written form is accepted.
pub open spec fn dec_doc(s: Seq<char>) -> Option<Seq<ServerV>> {
    if s == "[]"@ {
        Some(Seq::empty())
    } else if at_lit(s, 0, "[\n"@) {
        match dec_body(s, 2) {
            None => None,
            Some((l, j)) => if j + 2 == s.len() && at_lit(s, j, "\n]"@) {
                Some(l)
            } else {
                None
            },
        }
    } else {
        None
    }
}

// ---------------------------------------------------------------------------
// Reading back what was written yields the same profiles
// ---------------------------------------------------------------------------

/// Text that starts with a concatenation starts with each part in turn.
proof fn lemma_at_lit_split(s: Seq<char>, i: int, a: Seq<char>, b: Seq<char>)
    requires
        at_lit(s, i, a + b),
    ensures
        at_lit(s, i, a),
        at_lit(s, i + a.len(), b),
{
    let ab = a + b;
    assert(s.subrange(i, i + ab.len() as int) == ab);
    assert forall|m: int| 0 <= m < a.len() implies s.subrange(i, i + a.len() as int)[m]
        == a[m] by {
        assert(s.subrange(i, i + ab.len() as int)[m] == s[i + m]);
        assert(s.subrange(i, i + a.len() as int)[m] == s[i + m]);
    }
    assert(s.subrange(i, i + a.len() as int) =~= a);
    assert forall|m: int| 0 <= m < b.len() implies s.subrange(
        i + a.len(),
        i + a.len() + b.len() as int,
    )[m] == b[m] by {
        assert(s.subrange(i, i + ab.len() as int)[a.len() + m] == s[i + a.len() + m]);
        assert(s.subrange(i + a.len(), i + a.len() + b.len() as int)[m] == s[i + a.len() + m]);
        assert(ab[a.len() + m] == b[m]);
    }
    assert(s.subrange(i + a.len(), i + a.len() + b.len() as int) =~= b);
}

/// The text seen from its own start is itself.
proof fn lemma_at_lit_whole(s: Seq<char>)
    ensures
        at_lit(s, 0, s),
{
    assert(s.subrange(0, s.len() as int) =~= s);
}

/// A value followed by its closing quote, seen as one block.
proof fn lemma_quoted_block(s: Seq<char>, i: int, t: Seq<char>)
    requires
        at_lit(s, i, t),
        at_lit(s, i + t.len(), "\""@),
    ensures
        i + t.len() + 1 <= s.len(),
        s.subrange(i, i + t.len() + 1) == t.push('"'),
{
    reveal_strlit("\"");
    assert(s[i + t.len()] == '"') by {
        assert(s.subrange(i + t.len(), i + t.len() + "\""@.len() as int)[0] == s[i + t.len() + 0]);
    }
    assert forall|m: int| 0 <= m < t.len() + 1 implies s.subrange(i, i + t.len() + 1)[m] == t.push(
        '"',
    )[m] by {
        assert(s.subrange(i, i + t.len() + 1)[m] == s[i + m]);
        if m < t.len() {
            assert(s.subrange(i, i + t.len() as int)[m] == s[i + m]);
        }
    }
    assert(s.subrange(i, i + t.len() + 1) =~= t.push('"'));
}

/// Reading a quoted value back from its escaped form recovers it and
/// stops right after the closing quote.
proof fn lemma_dec_esc(s: Seq<char>, i: int, t: Seq<char>)
    requires
        0 <= i,
        i + esc(t).len() + 1 <= s.len(),
        s.subrange(i, i + esc(t).len() + 1) == esc(t).push('"'),
    ensures
        dec_str(s, i) == Some((t, i + esc(t).len() + 1)),
    decreases t.len(),
{
    let e = esc(t);
    let block = e.push('"');
    assert(s.subrange(i, i + block.len() as int) == block);
    assert(s[i] == block[0]) by {
        assert(s.subrange(i, i + block.len() as int)[0] == s[i + 0]);
    }
    if t.len() == 0 {
        assert(e =~= Seq::empty());
        assert(s[i] == '"');
        assert(t =~= Seq::<char>::empty());
    } else {
        let c = t[0];
        let t2 = t.drop_first();
        if c == '"' || c == '\\' {
            assert(e =~= seq!['\\', c] + esc(t2));
            assert(s[i] == '\\');
            assert(s[i + 1] == block[1]) by {
                assert(s.subrange(i, i + block.len() as int)[1] == s[i + 1]);
            }
            assert(s[i + 1] == c);
            assert(s.subrange(i + 2, i + 2 + esc(t2).len() + 1) =~= esc(t2).push('"')) by {
                assert forall|m: int| 0 <= m < esc(t2).len() + 1 implies s.subrange(
                    i + 2,
                    i + 2 + esc(t2).len() + 1,
                )[m] == esc(t2).push('"')[m] by {
                    assert(s.subrange(i + 2, i + 2 + esc(t2).len() + 1)[m] == s[i + 2 + m]);
                    assert(s.subrange(i, i + block.len() as int)[m + 2] == s[i + (m + 2)]);
                }
            }
            lemma_dec_esc(s, i + 2, t2);
            assert(seq![s[i + 1]] + t2 =~= t);
        } else {
            assert(e =~= seq![c] + esc(t2));
            assert(s[i] == c);
            assert(s.subrange(i + 1, i + 1 + esc(t2).len() + 1) =~= esc(t2).push('"')) by {
                assert forall|m: int| 0 <= m < esc(t2).len() + 1 implies s.subrange(
                    i + 1,
                    i + 1 + esc(t2).len() + 1,
                )[m] == esc(t2).push('"')[m] by {
                    assert(s.subrange(i + 1, i + 1 + esc(t2).len() + 1)[m] == s[i + 1 + m]);
                    assert(s.subrange(i, i + block.len() as int)[m + 1] == s[i + (m + 1)]);
                }
            }
            lemma_dec_esc(s, i + 1, t2);
            assert(seq![s[i]] + t2 =~= t);
        }
    }
}

/// Reading one written record back recovers the profile and stops right
/// after its closing brace.
proof fn lemma_dec_enc_record(s: Seq<char>, i: int, v: ServerV)
    requires
        at_lit(s, i, enc_record(v)),
    ensures
        enc_record(v).len() > 0,
        dec_record(s, i) == Some((v, i + enc_record(v).len())),
{
    reveal_strlit("\"");
    reveal_strlit("}");
    let l_name = "  {\"name\": \""@;
    let l_user = ", \"user\": \""@;
    let l_host = ", \"host\": \""@;
    let l_port = ", \"port\": \""@;
    let l_jump = ", \"jump_host\": \""@;
    let q = "\""@;
    let r01 = l_name;
    let r02 = r01 + esc(v.name);
    let r03 = r02 + q;
    let r04 = r03 + l_user;
    let r05 = r04 + esc(v.user);
    let r06 = r05 + q;
    let r07 = r06 + l_host;
    let r08 = r07 + esc(v.host);
    let r09 = r08 + q;
    let r10 = r09 + l_port;
    let r11 = r10 + esc(v.port);
    let r12 = r11 + q;
    let r13 = r12 + l_jump;
    let r14 = r13 + esc(v.jump_host);
    let r15 = r14 + q;
    assert(enc_record(v) == r15 + "}"@);
    lemma_at_lit_split(s, i, r15, "}"@);
    lemma_at_lit_split(s, i, r14, q);
    lemma_at_lit_split(s, i, r13, esc(v.jump_host));
    lemma_at_lit_split(s, i, r12, l_jump);
    lemma_at_lit_split(s, i, r11, q);
    lemma_at_lit_split(s, i, r10, esc(v.port));
    lemma_at_lit_split(s, i, r09, l_port);
    lemma_at_lit_split(s, i, r08, q);
    lemma_at_lit_split(s, i, r07, esc(v.host));
    lemma_at_lit_split(s, i, r06, l_host);
    lemma_at_lit_split(s, i, r05, q);
    lemma_at_lit_split(s, i, r04, esc(v.user));
    lemma_at_lit_split(s, i, r03, l_user);
    lemma_at_lit_split(s, i, r02, q);
    lemma_at_lit_split(s, i, r01, esc(v.name));
    lemma_quoted_block(s, i + r01.len(), esc(v.name));
    lemma_dec_esc(s, i + r01.len(), v.name);
    assert(i + r01.len() + esc(v.name).len() + 1 == i + r03.len());
    lemma_quoted_block(s, i + r04.len(), esc(v.user));
    lemma_dec_esc(s, i + r04.len(), v.user);
    assert(i + r04.len() + esc(v.user).len() + 1 == i + r06.len());
    lemma_quoted_block(s, i + r07.len(), esc(v.host));
    lemma_dec_esc(s, i + r07.len(), v.host);
    assert(i + r07.len() + esc(v.host).len() + 1 == i + r09.len());
    lemma_quoted_block(s, i + r10.len(), esc(v.port));
    lemma_dec_esc(s, i + r10.len(), v.port);
    assert(i + r10.len() + esc(v.port).len() + 1 == i + r12.len());
    lemma_quoted_block(s, i + r13.len(), esc(v.jump_host));
    lemma_dec_esc(s, i + r13.len(), v.jump_host);
    assert(i + r13.len() + esc(v.jump_host).len() + 1 == i + r15.len());
    assert(ServerV {
        name: v.name,
        user: v.user,
        host: v.host,
        port: v.port,
        jump_host: v.jump_host,
    } == v);
}

/// Reading a written run of records back recovers the list, provided the
/// text does not continue with another separator.
proof fn lemma_dec_enc_body(s: Seq<char>, i: int, l: Seq<ServerV>)
    requires
        l.len() > 0,
        at_lit(s, i, enc_body(l)),
        i + enc_body(l).len() == s.len() || s[i + enc_body(l).len()] != ',',
    ensures
        dec_body(s, i) == Some((l, i + enc_body(l).len())),
    decreases l.len(),
{
    reveal_strlit(",\n");
    if l.len() == 1 {
        assert(enc_body(l) == enc_record(l[0]));
        lemma_dec_enc_record(s, i, l[0]);
        let j = i + enc_record(l[0]).len();
        if j + 2 <= s.len() && at_lit(s, j, ",\n"@) {
            assert(s.subrange(j, j + 2)[0] == s[j]);
            assert(s[j] == ',');
            assert(false);
        }
        assert(seq![l[0]] =~= l);
    } else {
        let rest = l.drop_first();
        assert(enc_body(l) =~= enc_record(l[0]) + ",\n"@ + enc_body(rest));
        lemma_at_lit_split(s, i, enc_record(l[0]) + ",\n"@, enc_body(rest));
        lemma_at_lit_split(s, i, enc_record(l[0]), ",\n"@);
        lemma_dec_enc_record(s, i, l[0]);
        let j = i + enc_record(l[0]).len();
        assert(at_lit(s, j, ",\n"@));
        assert(j + 2 <= s.len());
        lemma_dec_enc_body(s, j + 2, rest);
        assert(seq![l[0]] + rest =~= l);
    }
}

/// Round trip of the profile store: reading a written list back yields
/// exactly the profiles that were saved, in order, field for field.
pub proof fn lemma_round_trip_list(l: Seq<ServerV>)
    ensures
        dec_doc(enc_list(l)) == Some(l),
{
    reveal_strlit("[]");
    reveal_strlit("[\n");
    reveal_strlit("\n]");
    reveal_strlit("}");
    if l.len() == 0 {
        assert(enc_list(l) == "[]"@);
        assert(dec_doc(enc_list(l)) == Some(Seq::<ServerV>::empty()));
        assert(l =~= Seq::<ServerV>::empty());
    } else {
        let s = enc_list(l);
        let body = enc_body(l);
        assert(s =~= "[\n"@ + body + "\n]"@);
        lemma_at_lit_whole(s);
        lemma_at_lit_split(s, 0, "[\n"@ + body, "\n]"@);
        lemma_at_lit_split(s, 0, "[\n"@, body);
        let jend = 2 + body.len() as int;
        assert(s[jend] == '\n') by {
            assert(s.subrange(jend, jend + 2) =~= "\n]"@);
            assert(s.subrange(jend, jend + 2)[0] == s[jend]);
        }
        if s == "[]"@ {
            assert(s.len() == 4 + body.len());
            assert(false);
        }
        lemma_dec_enc_body(s, 2, l);
        assert(jend + 2 == s.len());
    }
}

/// Round trip of the recency record: reading it back yields the key that
/// was saved, or its absence.
pub proof fn lemma_round_trip_recent(k: Option<Seq<char>>)
    ensures
        dec_recent(enc_recent(k)) == Some(k),
{
    reveal_strlit("null");
    reveal_strlit("\"");
    match k {
        None => {
        },
        Some(t) => {
            let s = enc_recent(k);
            assert(s =~= "\""@ + esc(t) + "\""@);
            lemma_at_lit_whole(s);
            lemma_at_lit_split(s, 0, "\""@ + esc(t), "\""@);
            lemma_at_lit_split(s, 0, "\""@, esc(t));
            assert(s[0] == '"') by {
                assert(s.subrange(0, 1) =~= "\""@);
                assert(s.subrange(0, 1)[0] == s[0]);
            }
            if s == "null"@ {
                assert(s[0] == 'n');
                assert(false);
            }
            lemma_quoted_block(s, 1, esc(t));
            lemma_dec_esc(s, 1, t);
        },
    }
}

/// Read the recency record: `null` or one quoted key filling the whole
/// text.
pub open spec fn dec_recent(s: Seq<char>) -> Option<Option<Seq<char>>> {
    if s == "null"@ {
        Some(None)
    } else if s.len() >= 1 && s[0] == '"' {
        match dec_str(s, 1) {
            None => None,
            Some((t, j)) => if j == s.len() {
                Some(Some(t))
            } else {
                None
            },
        }
    } else {
        None
    }
}

// ---------------------------------------------------------------------------
// The executable writer
// ---------------------------------------------------------------------------

/// Escaping distributes over concatenation.
proof fn lemma_esc_concat(a: Seq<char>, b: Seq<char>)
    ensures
        esc(a + b) == esc(a) + esc(b),
    decreases a.len(),
{
    if a.len() == 0 {
        assert(a + b =~= b);
        assert(esc(a) + esc(b) =~= esc(b));
    } else {
        assert((a + b)[0] == a[0]);
        assert((a + b).drop_first() =~= a.drop_first() + b);
        lemma_esc_concat(a.drop_first(), b);
        assert(esc(a + b) =~= esc(a) + esc(b));
    }
}

/// Append the escaped form of `f` to `out`.
fn esc_append(out: &mut String, f: &str)
    ensures
        final(out)@ == old(out)@ + esc(f@),
{
    let n = f.unicode_len();
    let mut k: usize = 0;
    while k < n
        invariant
            k <= n,
            n == f@.len(),
            out@ == old(out)@ + esc(f@.take(k as int)),
        decreases n - k,
    {
        let c = f.get_char(k);
        if c == '"' || c == '\\' {
            out.push('\\');
        }
        out.push(c);
        proof {
            let pre = f@.take(k as int);
            let one = seq![f@[k as int]];
            assert(f@.take(k + 1 as int) =~= pre + one);
            lemma_esc_concat(pre, one);
            assert(one.drop_first() =~= Seq::<char>::empty());
            assert(esc(one) == (if f@[k as int] == '"' || f@[k as int] == '\\' {
                seq!['\\', f@[k as int]]
            } else {
                seq![f@[k as int]]
            }) + esc(Seq::<char>::empty()));
            assert(out@ =~= old(out)@ + esc(f@.take(k + 1 as int)));
        }
        k += 1;
    }
    proof {
        assert(f@.take(n as int) =~= f@);
    }
}

/// One profile in its written form.
fn enc_record_exec(v: &Server) -> (r: String)
    ensures
        r@ == enc_record(v@),
{
    let mut out = String::from_str("  {\"name\": \"");
    esc_append(&mut out, v.name.as_str());
    out.append("\"");
    out.append(", \"user\": \"");
    esc_append(&mut out, v.user.as_str());
    out.append("\"");
    out.append(", \"host\": \"");
    esc_append(&mut out, v.host.as_str());
    out.append("\"");
    out.append(", \"port\": \"");
    esc_append(&mut out, v.port.as_str());
    out.append("\"");
    out.append(", \"jump_host\": \"");
    esc_append(&mut out, v.jump_host.as_str());
    out.append("\"");
    out.append("}");
    proof {
        assert(out@ =~= enc_record(v@));
    }
    out
}

/// The records from position `i` on, comma-separated.
fn enc_body_exec(servers: &Vec<Server>, i: usize) -> (r: String)
    requires
        i < servers.len(),
    ensures
        r@ == enc_body(views(servers@).skip(i as int)),
    decreases servers.len() - i,
{
    let ghost l = views(servers@).skip(i as int);
    let mut out = enc_record_exec(&servers[i]);
    proof {
        assert(l[0] == servers@[i as int]@);
        assert(l.len() == servers@.len() - i);
    }
    if i + 1 < servers.len() {
        out.append(",\n");
        let rest = enc_body_exec(servers, i + 1);
        out.append(rest.as_str());
        proof {
            assert(l.drop_first() =~= views(servers@).skip(i as int + 1));
        }
    }
    out
}

/// The whole profile list in its written form; this is what the
/// surrounding binary writes to the profile file after every mutation.
pub fn encode_servers(servers: &Vec<Server>) -> (r: String)
    ensures
        r@ == enc_list(views(servers@)),
{
    if servers.len() == 0 {
        String::from_str("[]")
    } else {
        let mut out = String::from_str("[\n");
        let body = enc_body_exec(servers, 0);
        out.append(body.as_str());
        out.append("\n]");
        proof {
            assert(views(servers@).skip(0) =~= views(servers@));
        }
        out
    }
}

/// The view of an optional stored key.
pub open spec fn recent_view(k: Option<String>) -> Option<Seq<char>> {
    match k {
        Some(s) => Some(s@),
        None => None,
    }
}

/// The recency record in its written form.
pub fn encode_recent(k: &Option<String>) -> (r: String)
    ensures
        r@ == enc_recent(recent_view(*k)),
{
    match k {
        None => String::from_str("null"),
        Some(s) => {
            let mut out = String::from_str("\"");
            esc_append(&mut out, s.as_str());
            out.append("\"");
            proof {
                assert(out@ =~= enc_recent(recent_view(*k)));
            }
            out
        },
    }
}

// ---------------------------------------------------------------------------
// The executable reader
// ---------------------------------------------------------------------------

/// Whether `lit` occurs in `s` at position `i`.
fn p_lit(s: &str, n: usize, i: usize, lit: &str) -> (r: bool)
    requires
        n == s@.len(),
        i <= n,
    ensures
        r == at_lit(s@, i as int, lit@),
{
    let ln = lit.unicode_len();
    if ln > n - i {
        return false;
    }
    let mut m: usize = 0;
    while m < ln
        invariant
            m <= ln,
            i + ln <= n,
            n == s@.len(),
            ln == lit@.len(),
            forall|j: int| 0 <= j < m ==> s@[i + j] == lit@[j],
        decreases ln - m,
    {
        if s.get_char(i + m) != lit.get_char(m) {
            proof {
                if at_lit(s@, i as int, lit@) {
                    assert(s@.subrange(i as int, i + ln as int)[m as int] == s@[i + m as int]);
                }
            }
            return false;
        }
        m += 1;
    }
    proof {
        assert forall|j: int| 0 <= j < ln implies s@.subrange(i as int, i + ln as int)[j]
            == lit@[j] by {
            assert(s@.subrange(i as int, i + ln as int)[j] == s@[i + j]);
        }
        assert(s@.subrange(i as int, i + ln as int) =~= lit@);
    }
    true
}

/// Read a quoted value up to its closing quote.
fn p_str(s: &str, n: usize, i: usize) -> (r: Option<(String, usize)>)
    requires
        n == s@.len(),
        i <= n,
    ensures
        match r {
            Some(p) => dec_str(s@, i as int) == Some((p.0@, p.1 as int)) && i < p.1 <= n,
            None => dec_str(s@, i as int) is None,
        },
    decreases n - i,
{
    if i >= n {
        return None;
    }
    let c = s.get_char(i);
    if c == '"' {
        Some((String::new(), i + 1))
    } else if c == '\\' {
        if i + 1 < n {
            let c2 = s.get_char(i + 1);
            match p_str(s, n, i + 2) {
                None => None,
                Some((t, j)) => {
                    let mut out = String::new();
                    out.push(c2);
                    out.append(t.as_str());
                    proof {
                        assert(out@ =~= seq![s@[i + 1]] + t@);
                    }
                    Some((out, j))
                },
            }
        } else {
            None
        }
    } else {
        match p_str(s, n, i + 1) {
            None => None,
            Some((t, j)) => {
                let mut out = String::new();
                out.push(c);
                out.append(t.as_str());
                proof {
                    assert(out@ =~= seq![s@[i as int]] + t@);
                }
                Some((out, j))
            },
        }
    }
}

/// Read one profile object.
fn p_record(s: &str, n: usize, i: usize) -> (r: Option<(Server, usize)>)
    requires
        n == s@.len(),
        i <= n,
    ensures
        match r {
            Some(p) => dec_record(s@, i as int) == Some((p.0@, p.1 as int)) && i < p.1 <= n,
            None => dec_record(s@, i as int) is None,
        },
{
    if !p_lit(s, n, i, "  {\"name\": \"") {
        return None;
    }
    let l0 = "  {\"name\": \"".unicode_len();
    let (name, i1) = match p_str(s, n, i + l0) {
        None => {
            return None;
        },
        Some(p) => p,
    };
    if !p_lit(s, n, i1, ", \"user\": \"") {
        return None;
    }
    let l1 = ", \"user\": \"".unicode_len();
    let (user, i2) = match p_str(s, n, i1 + l1) {
        None => {
            return None;
        },
        Some(p) => p,
    };
    if !p_lit(s, n, i2, ", \"host\": \"") {
        return None;
    }
    let l2 = ", \"host\": \"".unicode_len();
    let (host, i3) = match p_str(s, n, i2 + l2) {
        None => {
            return None;
        },
        Some(p) => p,
    };
    if !p_lit(s, n, i3, ", \"port\": \"") {
        return None;
    }
    let l3 = ", \"port\": \"".unicode_len();
    let (port, i4) = match p_str(s, n, i3 + l3) {
        None => {
            return None;
        },
        Some(p) => p,
    };
    if p_lit(s, n, i4, ", \"jump_host\": \"") {
        let l4 = ", \"jump_host\": \"".unicode_len();
        let (jump, i5) = match p_str(s, n, i4 + l4) {
            None => {
                return None;
            },
            Some(p) => p,
        };
        if !p_lit(s, n, i5, "}") {
            return None;
        }
        proof {
            reveal_strlit("}");
        }
        Some((Server { name, user, host, port, jump_host: jump }, i5 + 1))
    } else if p_lit(s, n, i4, "}") {
        proof {
            reveal_strlit("}");
        }
        Some((Server { name, user, host, port, jump_host: String::new() }, i4 + 1))
    } else {
        None
    }
}

/// Read one or more comma-separated profile objects.
fn p_body(s: &str, n: usize, i: usize) -> (r: Option<(Vec<Server>, usize)>)
    requires
        n == s@.len(),
        i <= n,
    ensures
        match r {
            Some(p) => dec_body(s@, i as int) == Some((views(p.0@), p.1 as int)) && i < p.1 <= n,
            None => dec_body(s@, i as int) is None,
        },
    decreases n - i,
{
    let (v, j) = match p_record(s, n, i) {
        None => {
            return None;
        },
        Some(p) => p,
    };
    if n >= 2 && j <= n - 2 && p_lit(s, n, j, ",\n") {
        match p_body(s, n, j + 2) {
            None => None,
            Some((rest, k)) => {
                let mut l = rest;
                l.insert(0, v);
                proof {
                    assert(views(l@) =~= seq![l@[0]@] + views(l@.drop_first()));
                    assert(l@.drop_first() =~= l@.subrange(1, l@.len() as int));
                }
                Some((l, k))
            },
        }
    } else {
        let mut l: Vec<Server> = Vec::new();
        l.push(v);
        proof {
            assert(views(l@) =~= seq![l@[0]@]);
        }
        Some((l, j))
    }
}

/// Read a whole profile list back from the text of the profile file.
/// Only the written form of [`encode_servers`] is accepted; any other
/// text yields `None` and the caller degrades to an empty store.
pub fn parse_servers(s: &str) -> (r: Option<Vec<Server>>)
    ensures
        match r {
            Some(v) => dec_doc(s@) == Some(views(v@)),
            None => dec_doc(s@) is None,
        },
{
    let n = s.unicode_len();
    proof {
        reveal_strlit("[]");
        reveal_strlit("[\n");
        reveal_strlit("\n]");
        lemma_at_lit_whole(s@);
    }
    if n == 2 && p_lit(s, n, 0, "[]") {
        proof {
            assert(s@.subrange(0, 2) =~= s@);
        }
        let l: Vec<Server> = Vec::new();
        proof {
            assert(views(l@) =~= Seq::<ServerV>::empty());
        }
        return Some(l);
    }
    proof {
        assert(s@ != "[]"@);
    }
    if !p_lit(s, n, 0, "[\n") {
        return None;
    }
    match p_body(s, n, 2) {
        None => None,
        Some((l, j)) => {
            if n - j == 2 && p_lit(s, n, j, "\n]") {
                Some(l)
            } else {
                None
            }
        },
    }
}

/// Read the recency record back from the text of the recency file.
pub fn parse_recent(s: &str) -> (r: Option<Option<String>>)
    ensures
        match r {
            Some(k) => dec_recent(s@) == Some(recent_view(k)),
            None => dec_recent(s@) is None,
        },
{
    let n = s.unicode_len();
    proof {
        reveal_strlit("null");
        lemma_at_lit_whole(s@);
    }
    if n == 4 && p_lit(s, n, 0, "null") {
        proof {
            assert(s@.subrange(0, 4) =~= s@);
        }
        return Some(None);
    }
    proof {
        assert(s@ != "null"@);
    }
    if n >= 1 {
        let c = s.get_char(0);
        if c == '"' {
            match p_str(s, n, 1) {
                Some((t, j)) => if j == n {
                    Some(Some(t))
                } else {
                    None
                },
                None => None,
            }
        } else {
            None
        }
    } else {
        None
    }
}

} // verus!
