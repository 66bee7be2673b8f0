//! Laws of the pipeline, proved once and for all: what the tokenizer
//! guarantees of every token, how labels and variables resolve, and that
//! encoding a token sequence twice yields identical output.

use vstd::prelude::*;

use crate::lex::{clean, lemma_clean, tokenize};
use crate::numeric::lemma_bin_of_len;
use crate::parse::{
    a_line, encode_all, encode_token, init_model, label_name, name_operand, numeric_operand,
    operand_of, resolve_all, resolve_token, spec_assemble, spec_token_type, valid_label,
    ParserModel, TokenType,
};
use crate::text::{is_space, marker_at};

verus! {

/// What the tokenizer guarantees of each token it emits: it is non-empty,
/// trimmed on both ends, and holds no comment remnant.
pub open spec fn good_token(t: Seq<char>) -> bool {
    &&& t.len() > 0
    &&& !is_space(t[0])
    &&& !is_space(t[t.len() - 1])
    &&& forall|j: int| !#[trigger] marker_at(t, j)
}

/// Tokenizer law: every token of any input is a good token.
pub proof fn lemma_tokenize_tokens(s: Seq<char>)
    ensures
        forall|i: int| 0 <= i < tokenize(s).len() ==> good_token(#[trigger] tokenize(s)[i]),
    decreases s.len(),
{
    if s.len() == 0 {
    } else {
        let tk = tokenize(s);
        let p = crate::text::find_from(s, 0, '\n');
        crate::text::lemma_find_from(s, 0, '\n');
        if p >= s.len() {
            lemma_clean(s);
            let tok = clean(s);
            assert forall|i: int| 0 <= i < tk.len() implies good_token(#[trigger] tk[i]) by {
                assert(tk[i] == tok);
            }
        } else {
            lemma_clean(s.subrange(0, p as int));
            lemma_tokenize_tokens(s.subrange(p as int + 1, s.len() as int));
            let tok = clean(s.subrange(0, p as int));
            let rest = tokenize(s.subrange(p as int + 1, s.len() as int));
            assert forall|i: int| 0 <= i < tk.len() implies good_token(#[trigger] tk[i]) by {
                if tok.len() == 0 {
                    assert(tk[i] == rest[i]);
                } else if i == 0 {
                    assert(tk[i] == tok);
                } else {
                    assert(tk[i] == rest[i - 1]);
                }
            }
        }
    }
}

/// Re-encountering a bound name resolves to its already-bound address and
/// leaves the parser state unchanged.
pub proof fn lemma_reencounter(st: ParserModel, x: Seq<char>)
    requires
        name_operand(x),
        st.symbols.contains_key(x),
    ensures
        encode_token(st, seq!['@'] + x) is Ok,
        encode_token(st, seq!['@'] + x)->Ok_0.0 == st,
        encode_token(st, seq!['@'] + x)->Ok_0.1 == a_line(st.symbols[x] as nat),
{
    let t = seq!['@'] + x;
    assert(operand_of(t) =~= x);
    assert(!numeric_operand(x));
    assert(spec_token_type(t) == TokenType::ACommand);
}

/// Two distinct unbound names, first encountered in this order, receive
/// consecutive addresses starting at the variable cursor.
pub proof fn lemma_variables_consecutive(st: ParserModel, x: Seq<char>, y: Seq<char>)
    requires
        name_operand(x),
        name_operand(y),
        !st.symbols.contains_key(x),
        !st.symbols.contains_key(y),
        x != y,
        st.mem + 1 < 0x8000,
    ensures
        encode_token(st, seq!['@'] + x) is Ok,
        encode_token(st, seq!['@'] + x)->Ok_0.1 == a_line(st.mem),
        ({
            let st2 = encode_token(st, seq!['@'] + x)->Ok_0.0;
            &&& st2.symbols.contains_key(x) && st2.symbols[x] as nat == st.mem
            &&& encode_token(st2, seq!['@'] + y) is Ok
            &&& encode_token(st2, seq!['@'] + y)->Ok_0.1 == a_line(st.mem + 1)
            &&& encode_token(st2, seq!['@'] + y)->Ok_0.0.symbols.contains_key(y)
            &&& encode_token(st2, seq!['@'] + y)->Ok_0.0.symbols[y] as nat == st.mem + 1
        }),
{
    let tx = seq!['@'] + x;
    let ty = seq!['@'] + y;
    assert(operand_of(tx) =~= x);
    assert(operand_of(ty) =~= y);
    assert(!numeric_operand(x));
    assert(!numeric_operand(y));
    assert(spec_token_type(tx) == TokenType::ACommand);
    assert(spec_token_type(ty) == TokenType::ACommand);
}

/// Count of the executable tokens of a sequence: those that are neither
/// empty nor labels, and so advance the program counter and emit output.
pub open spec fn exec_count(toks: Seq<Seq<char>>) -> nat
    decreases toks.len(),
{
    if toks.len() == 0 {
        0
    } else if toks[0].len() == 0 || spec_token_type(toks[0]) == TokenType::LCommand {
        exec_count(toks.drop_first())
    } else {
        exec_count(toks.drop_first()) + 1
    }
}

/// `m2` keeps every binding of `m1`.
pub open spec fn covers(m2: Map<Seq<char>, u16>, m1: Map<Seq<char>, u16>) -> bool {
    forall|k: Seq<char>| #[trigger] m1.contains_key(k) ==> m2.contains_key(k) && m2[k] == m1[k]
}

/// The resolution pass never changes an existing binding of a name that no
/// token of the sequence defines as a label.
pub proof fn lemma_resolve_preserves(st: ParserModel, toks: Seq<Seq<char>>, name: Seq<char>)
    requires
        resolve_all(st, toks) is Ok,
        st.symbols.contains_key(name),
        forall|j: int|
            0 <= j < toks.len() ==> !(valid_label(#[trigger] toks[j]) && label_name(toks[j])
                == name),
    ensures
        resolve_all(st, toks)->Ok_0.symbols.contains_key(name),
        resolve_all(st, toks)->Ok_0.symbols[name] == st.symbols[name],
    decreases toks.len(),
{
    if toks.len() > 0 {
        let st2 = resolve_token(st, toks[0])->Ok_0;
        let rest = toks.drop_first();
        assert forall|j: int|
            0 <= j < rest.len() implies !(valid_label(#[trigger] rest[j]) && label_name(rest[j])
            == name) by {
            assert(rest[j] == toks[j + 1]);
        }
        lemma_resolve_preserves(st2, rest, name);
    }
}

/// Resolution law: a label defined exactly once, over a name not already
/// bound, ends up bound to the count of executable instructions before it —
/// wherever in the sequence its definition stands.
pub proof fn lemma_resolve_binds_label(st: ParserModel, toks: Seq<Seq<char>>, i: int)
    requires
        resolve_all(st, toks) is Ok,
        0 <= i < toks.len(),
        valid_label(toks[i]),
        !st.symbols.contains_key(label_name(toks[i])),
        forall|j: int|
            0 <= j < toks.len() && j != i ==> !(valid_label(#[trigger] toks[j]) && label_name(
                toks[j],
            ) == label_name(toks[i])),
        st.pc + exec_count(toks.take(i)) < 0x8000,
    ensures
        resolve_all(st, toks)->Ok_0.symbols.contains_key(label_name(toks[i])),
        resolve_all(st, toks)->Ok_0.symbols[label_name(toks[i])] as nat == st.pc + exec_count(
            toks.take(i),
        ),
    decreases toks.len(),
{
    let name = label_name(toks[i]);
    let rest = toks.drop_first();
    if i == 0 {
        assert(toks.take(0) =~= Seq::<Seq<char>>::empty());
        let st2 = resolve_token(st, toks[0])->Ok_0;
        assert(st2.symbols == st.symbols.insert(name, st.pc as u16));
        assert forall|j: int|
            0 <= j < rest.len() implies !(valid_label(#[trigger] rest[j]) && label_name(rest[j])
            == name) by {
            assert(rest[j] == toks[j + 1]);
        }
        lemma_resolve_preserves(st2, rest, name);
    } else {
        let st2 = resolve_token(st, toks[0])->Ok_0;
        assert(toks.take(i)[0] == toks[0]);
        assert(toks.take(i).drop_first() =~= rest.take(i - 1));
        assert forall|j: int|
            0 <= j < rest.len() && j != i - 1 implies !(valid_label(#[trigger] rest[j])
            && label_name(rest[j]) == label_name(rest[i - 1])) by {
            assert(rest[j] == toks[j + 1]);
            assert(rest[i - 1] == toks[i]);
        }
        assert(rest[i - 1] == toks[i]);
        lemma_resolve_binds_label(st2, rest, i - 1);
    }
}

/// One encoding step only adds bindings.
pub proof fn lemma_encode_token_extends(st: ParserModel, t: Seq<char>)
    requires
        encode_token(st, t) is Ok,
    ensures
        covers(encode_token(st, t)->Ok_0.0.symbols, st.symbols),
{
}

/// The encoding pass only adds bindings.
pub proof fn lemma_encode_extends(st: ParserModel, toks: Seq<Seq<char>>)
    requires
        encode_all(st, toks) is Ok,
    ensures
        covers(encode_all(st, toks)->Ok_0.0.symbols, st.symbols),
    decreases toks.len(),
{
    if toks.len() > 0 {
        let st2 = encode_token(st, toks[0])->Ok_0.0;
        lemma_encode_token_extends(st, toks[0]);
        lemma_encode_extends(st2, toks.drop_first());
    }
}

/// A token that encoded once encodes to the same line, with no state
/// change, from any state that keeps the bindings that encoding produced.
pub proof fn lemma_encode_token_stable(st: ParserModel, t: Seq<char>, stb: ParserModel)
    requires
        encode_token(st, t) is Ok,
        covers(stb.symbols, encode_token(st, t)->Ok_0.0.symbols),
    ensures
        encode_token(stb, t) is Ok,
        encode_token(stb, t)->Ok_0.0 == stb,
        encode_token(stb, t)->Ok_0.1 == encode_token(st, t)->Ok_0.1,
{
    if spec_token_type(t) == TokenType::ACommand {
        let op = operand_of(t);
        if !numeric_operand(op) && name_operand(op) {
            let st2 = encode_token(st, t)->Ok_0.0;
            assert(st2.symbols.contains_key(op));
            assert(stb.symbols[op] == st2.symbols[op]);
        }
    }
}

/// Idempotence law: encoding the same token sequence a second time, from
/// the state the first encoding ended in, changes nothing and yields the
/// identical output lines.
pub proof fn lemma_encode_idempotent(st: ParserModel, toks: Seq<Seq<char>>)
    requires
        encode_all(st, toks) is Ok,
    ensures
        encode_all(encode_all(st, toks)->Ok_0.0, toks) is Ok,
        encode_all(encode_all(st, toks)->Ok_0.0, toks)->Ok_0.0 == encode_all(st, toks)->Ok_0.0,
        encode_all(encode_all(st, toks)->Ok_0.0, toks)->Ok_0.1 == encode_all(st, toks)->Ok_0.1,
    decreases toks.len(),
{
    if toks.len() > 0 {
        let st2 = encode_token(st, toks[0])->Ok_0.0;
        let rest = toks.drop_first();
        let stf = encode_all(st2, rest)->Ok_0.0;
        lemma_encode_extends(st2, rest);
        lemma_encode_token_stable(st, toks[0], stf);
        lemma_encode_idempotent(st2, rest);
    }
}

/// Every encoded address line has exactly sixteen digits and a terminator.
pub proof fn lemma_a_line_len()
    ensures
        forall|v: nat| (#[trigger] a_line(v)).len() == 17,
{
    reveal_strlit("0");
    reveal_strlit("\n");
    assert forall|v: nat| (#[trigger] a_line(v)).len() == 17 by {
        lemma_bin_of_len(v, 15);
    }
}

/// Encoding law: an address token whose name is bound before the pass runs
/// encodes, at its position among the executable tokens, to the line of the
/// bound address — wherever the binding was defined.
pub proof fn lemma_encoded_reference(st: ParserModel, toks: Seq<Seq<char>>, j: int, name: Seq<
    char,
>)
    requires
        encode_all(st, toks) is Ok,
        forall|q: int| 0 <= q < toks.len() ==> (#[trigger] toks[q]).len() > 0,
        0 <= j < toks.len(),
        toks[j] == seq!['@'] + name,
        name_operand(name),
        st.symbols.contains_key(name),
    ensures
        exec_count(toks.take(j)) < encode_all(st, toks)->Ok_0.1.len(),
        encode_all(st, toks)->Ok_0.1[exec_count(toks.take(j)) as int] == a_line(
            st.symbols[name] as nat,
        ),
    decreases toks.len(),
{
    lemma_a_line_len();
    reveal_strlit("111");
    let lines = encode_all(st, toks)->Ok_0.1;
    let rest = toks.drop_first();
    if j == 0 {
        assert(toks.take(0) =~= Seq::<Seq<char>>::empty());
        lemma_reencounter(st, name);
        let l0 = encode_token(st, toks[0])->Ok_0.1;
        assert(l0.len() > 0);
        assert(lines[0] == l0);
    } else {
        let st2 = encode_token(st, toks[0])->Ok_0.0;
        let l0 = encode_token(st, toks[0])->Ok_0.1;
        lemma_encode_token_extends(st, toks[0]);
        assert forall|q: int| 0 <= q < rest.len() implies (#[trigger] rest[q]).len() > 0 by {
            assert(rest[q] == toks[q + 1]);
        }
        assert(rest[j - 1] == toks[j]);
        lemma_encoded_reference(st2, rest, j - 1, name);
        let rlines = encode_all(st2, rest)->Ok_0.1;
        let c: int = exec_count(rest.take(j - 1)) as int;
        assert(toks.take(j)[0] == toks[0]);
        assert(toks.take(j).drop_first() =~= rest.take(j - 1));
        if spec_token_type(toks[0]) == TokenType::LCommand {
            assert(l0.len() == 0);
            assert(lines == rlines);
            assert(exec_count(toks.take(j)) == exec_count(rest.take(j - 1)));
        } else {
            assert(l0.len() > 0);
            assert(lines == seq![l0] + rlines);
            assert(exec_count(toks.take(j)) == exec_count(rest.take(j - 1)) + 1);
            assert(lines[c + 1] == rlines[c]);
        }
    }
}

/// Pipeline law: in an accepted program whose token `i` defines a label
/// exactly once, over a name that is not reserved, every address token
/// `@name` — before or after the definition — emits the line of the count
/// of executable instructions preceding the definition.
pub proof fn lemma_forward_reference(src: Seq<char>, i: int, j: int)
    requires
        spec_assemble(src) is Ok,
        0 <= i < tokenize(src).len(),
        valid_label(tokenize(src)[i]),
        !init_model().symbols.contains_key(label_name(tokenize(src)[i])),
        forall|q: int|
            0 <= q < tokenize(src).len() && q != i ==> !(valid_label(#[trigger] tokenize(src)[q])
                && label_name(tokenize(src)[q]) == label_name(tokenize(src)[i])),
        exec_count(tokenize(src).take(i)) < 0x8000,
        0 <= j < tokenize(src).len(),
        tokenize(src)[j] == seq!['@'] + label_name(tokenize(src)[i]),
    ensures
        exec_count(tokenize(src).take(j)) < spec_assemble(src)->Ok_0.len(),
        spec_assemble(src)->Ok_0[exec_count(tokenize(src).take(j)) as int] == a_line(
            exec_count(tokenize(src).take(i)),
        ),
{
    let toks = tokenize(src);
    let name = label_name(toks[i]);
    lemma_tokenize_tokens(src);
    lemma_resolve_binds_label(init_model(), toks, i);
    let st1 = resolve_all(init_model(), toks)->Ok_0;
    assert(name_operand(name)) by {
        assert(name[0] == toks[i][1]);
    }
    assert forall|q: int| 0 <= q < toks.len() implies (#[trigger] toks[q]).len() > 0 by {
        assert(good_token(toks[q]));
    }
    lemma_encoded_reference(st1, toks, j, name);
}

/// Output-count law: an accepted encoding pass over non-empty tokens emits
/// exactly one line per executable token, and none for labels.
pub proof fn lemma_output_count(st: ParserModel, toks: Seq<Seq<char>>)
    requires
        encode_all(st, toks) is Ok,
        forall|q: int| 0 <= q < toks.len() ==> (#[trigger] toks[q]).len() > 0,
    ensures
        encode_all(st, toks)->Ok_0.1.len() == exec_count(toks),
    decreases toks.len(),
{
    lemma_a_line_len();
    reveal_strlit("111");
    if toks.len() > 0 {
        let st2 = encode_token(st, toks[0])->Ok_0.0;
        let rest = toks.drop_first();
        assert forall|q: int| 0 <= q < rest.len() implies (#[trigger] rest[q]).len() > 0 by {
            assert(rest[q] == toks[q + 1]);
        }
        lemma_output_count(st2, rest);
    }
}

} // verus!
