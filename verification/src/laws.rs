//! Laws of the machine and of the pipeline, each stated over the same spec
//! functions the executable contracts use, and proved once and for all.

use vstd::prelude::*;
use crate::dis::{
    first_unresolved, flags_for, labels_unique, lemma_index_props, lemma_unresolved_none, m_wf,
    read_value_spec, resolves, spec_index_labels, step_effect, stmt_has_label, with_pc,
    write_value_spec, IoV, MachineV, StepOutcome, FLAG_EQ, FLAG_GT, FLAG_LT,
};
use crate::lexer::{
    bad_char_word, classify_spec, col_of, is_keyword, lexes_to, line_of, next_word_start,
    skip_spaces, token_text, word_end, LocV, TokenV,
};
use crate::statement::{
    fault_of, join_words, op_word, reg_index, statement_text, statement_words, valid_reg_name,
    ArgKind, OpV, StatementV, MEM_SIZE, REG_COUNT,
};
use crate::text::{
    all_digits, dec_render, is_digit, is_number_word, is_space, lemma_dec_render,
};

verus! {

/// A label map built by a successful load is duplicate-free, every entry
/// names the statement that defines it, and every control transfer of the
/// program resolves through it.
pub proof fn law_loaded_labels(prog: Seq<StatementV>, lm: Seq<(Seq<char>, int)>)
    requires
        spec_index_labels(prog, 0, Seq::empty()) == Ok::<
            Seq<(Seq<char>, int)>,
            (Seq<char>, int, int),
        >(lm),
        first_unresolved(prog, lm, 0) is None,
    ensures
        labels_unique(lm),
        forall|e: int|
            0 <= e < lm.len() ==> 0 <= (#[trigger] lm[e]).1 < prog.len() && stmt_has_label(
                prog[lm[e].1],
                lm[e].0,
            ),
        forall|i: int| 0 <= i < prog.len() ==> resolves(lm, #[trigger] prog[i]),
{
    lemma_index_props(prog, 0, Seq::empty());
    lemma_unresolved_none(prog, lm, 0);
}

/// After `cmp a, b` the EQ bit is set exactly when `a == b`, the LT bit
/// exactly when `a < b`, the GT bit exactly when `a > b`, and exactly one
/// of the three flags is set.
pub proof fn law_cmp_flags(a: u16, b: u16)
    ensures
        (flags_for(a, b) & FLAG_EQ != 0) <==> a == b,
        (flags_for(a, b) & FLAG_LT != 0) <==> a < b,
        (flags_for(a, b) & FLAG_GT != 0) <==> a > b,
        flags_for(a, b) == FLAG_EQ || flags_for(a, b) == FLAG_LT || flags_for(a, b) == FLAG_GT,
{
    assert(1u8 & 1u8 != 0 && 1u8 & 2u8 == 0 && 1u8 & 4u8 == 0) by (bit_vector);
    assert(2u8 & 1u8 == 0 && 2u8 & 2u8 != 0 && 2u8 & 4u8 == 0) by (bit_vector);
    assert(4u8 & 1u8 == 0 && 4u8 & 2u8 == 0 && 4u8 & 4u8 != 0) by (bit_vector);
}

/// Writing a place and reading it back yields the value written.
pub proof fn law_write_read(m: MachineV, t: TokenV, v: u16)
    requires
        m.registers.len() == REG_COUNT,
        m.memory.len() == MEM_SIZE,
        fault_of(ArgKind::Place, t) is None,
    ensures
        write_value_spec(m, t, v) matches Some(m2) ==> read_value_spec(m2, t) == Some(v),
{
    match write_value_spec(m, t, v) {
        Some(m2) => {
            match t {
                TokenV::Register { value, .. } => {
                    assert(valid_reg_name(value));
                    assert(0 <= reg_index(value) < REG_COUNT);
                },
                TokenV::Memory { value, .. } => {
                    assert(crate::dis::mem_addr_of(m2, value) == crate::dis::mem_addr_of(
                        m,
                        value,
                    ));
                },
                _ => {},
            }
        },
        None => {},
    }
}

/// `add x, d`, run as one tick, leaves `(x + y) mod 2^16` readable at the
/// destination, where `y` was the destination's value; `sub` likewise
/// leaves `(y - x) mod 2^16`.
pub proof fn law_arith_result(
    pre: MachineV,
    io0: IoV,
    post: MachineV,
    io1: IoV,
    x: u16,
    y: u16,
)
    requires
        m_wf(pre),
        !pre.die,
        0 <= pre.pc < pre.program.len(),
        pre.program[pre.pc].op is ADD || pre.program[pre.pc].op is SUB,
        read_value_spec(pre, pre.program[pre.pc].body[0]) == Some(x),
        read_value_spec(pre, pre.program[pre.pc].body[1]) == Some(y),
        step_effect(pre, io0, post, io1, Ok(StepOutcome::Ran)),
    ensures
        pre.program[pre.pc].op is ADD ==> read_value_spec(post, pre.program[pre.pc].body[1])
            == Some((((x as int + y as int) % 0x10000) as u16)),
        pre.program[pre.pc].op is SUB ==> read_value_spec(post, pre.program[pre.pc].body[1])
            == Some((((y as int - x as int + 0x10000) % 0x10000) as u16)),
{
    let dst = pre.program[pre.pc].body[1];
    let res: u16 = if pre.program[pre.pc].op is ADD {
        (((x as int + y as int) % 0x10000) as u16)
    } else {
        (((y as int - x as int + 0x10000) % 0x10000) as u16)
    };
    law_write_read(pre, dst, res);
    match write_value_spec(pre, dst, res) {
        Some(m2) => {
            assert(post == with_pc(m2, pre.pc + 1));
            assert(read_value_spec(post, dst) == read_value_spec(m2, dst));
        },
        None => {},
    }
}

/// Writing the same value to the same place twice is one write: the second
/// changes nothing.
pub proof fn law_write_idempotent(m: MachineV, t: TokenV, v: u16)
    requires
        m.registers.len() == REG_COUNT,
        m.memory.len() == MEM_SIZE,
        fault_of(ArgKind::Place, t) is None,
    ensures
        write_value_spec(m, t, v) matches Some(m2) ==> write_value_spec(m2, t, v) == Some(m2),
{
    match write_value_spec(m, t, v) {
        Some(m2) => {
            match t {
                TokenV::Register { value, .. } => {
                    let ri = reg_index(value);
                    assert(0 <= ri < REG_COUNT);
                    assert(m2.registers.update(ri, v) =~= m2.registers);
                },
                TokenV::Memory { value, .. } => {
                    let a = crate::dis::mem_addr_of(m, value);
                    assert(crate::dis::mem_addr_of(m2, value) == a);
                    assert(m2.memory.update(a, v) =~= m2.memory);
                },
                _ => {},
            }
        },
        None => {},
    }
}

/// `mov src, dst; mov src, dst` is `mov src, dst`: once the value has
/// landed, the second move rewrites it in place. The proviso is that the
/// write leaves the source's value as it was: a source that reads through
/// the written place (such as `mov &#0 #0`) may move a different value the
/// second time.
pub proof fn law_mov_idempotent(m: MachineV, src: TokenV, dst: TokenV, v: u16, m2: MachineV)
    requires
        m.registers.len() == REG_COUNT,
        m.memory.len() == MEM_SIZE,
        fault_of(ArgKind::Value, src) is None,
        fault_of(ArgKind::Place, dst) is None,
        read_value_spec(m, src) == Some(v),
        write_value_spec(m, dst, v) == Some(m2),
        read_value_spec(m2, src) == read_value_spec(m, src),
    ensures
        read_value_spec(m2, src) == Some(v),
        write_value_spec(m2, dst, v) == Some(m2),
{
    law_write_idempotent(m, dst, v);
}

/// `run L` pushes the index of the `run` statement itself.
pub proof fn law_run_pushes(pre: MachineV, io0: IoV, post: MachineV, io1: IoV)
    requires
        !pre.die,
        0 <= pre.pc < pre.program.len(),
        pre.program[pre.pc].op is RUN,
        step_effect(pre, io0, post, io1, Ok(StepOutcome::Ran)),
    ensures
        post.return_stack == pre.return_stack.push(pre.pc),
{
}

/// `ret` pops one index and resumes just after it.
pub proof fn law_ret_returns(pre: MachineV, io0: IoV, post: MachineV, io1: IoV)
    requires
        !pre.die,
        0 <= pre.pc < pre.program.len(),
        pre.program[pre.pc].op is RET,
        step_effect(pre, io0, post, io1, Ok(StepOutcome::Ran)),
    ensures
        pre.return_stack.len() > 0,
        post.pc == pre.return_stack.last() + 1,
        post.return_stack == pre.return_stack.drop_last(),
{
}

/// A `run` and the `ret` that pops its frame bracket each other: however
/// many ticks lie between them, when the `ret` executes with the frame the
/// `run` pushed on top, control returns to the statement immediately
/// following the `run`.
pub proof fn law_run_ret(
    run_pre: MachineV,
    io0: IoV,
    run_post: MachineV,
    io1: IoV,
    ret_pre: MachineV,
    io2: IoV,
    ret_post: MachineV,
    io3: IoV,
)
    requires
        !run_pre.die,
        0 <= run_pre.pc < run_pre.program.len(),
        run_pre.program[run_pre.pc].op is RUN,
        step_effect(run_pre, io0, run_post, io1, Ok(StepOutcome::Ran)),
        !ret_pre.die,
        0 <= ret_pre.pc < ret_pre.program.len(),
        ret_pre.program[ret_pre.pc].op is RET,
        ret_pre.return_stack == run_post.return_stack,
        step_effect(ret_pre, io2, ret_post, io3, Ok(StepOutcome::Ran)),
    ensures
        ret_post.pc == run_pre.pc + 1,
{
    law_run_pushes(run_pre, io0, run_post, io1);
    law_ret_returns(ret_pre, io2, ret_post, io3);
}

/// Can the lexer produce this token back from its printed form? A word must
/// hold no whitespace, must not begin a comment, and must classify into the
/// same variant under the fixed priority order.
pub open spec fn lexable(t: TokenV) -> bool {
    match t {
        TokenV::Char { value, .. } => !is_space(value),
        TokenV::Label { value, .. } => no_space(value) && (value.len() == 0 || (value[0] != '.'
            && value[0] != '-')),
        TokenV::Register { value, .. } => no_space(value) && (value.len() == 0 || value.last()
            != ':'),
        TokenV::Memory { value, .. } => no_space(value) && (value.len() == 0 || value.last()
            != ':'),
        TokenV::Keyword { value, .. } => is_keyword(value),
        TokenV::Number { .. } => true,
        TokenV::Identifier { value, .. } => value.len() > 0 && no_space(value) && value[0] != '.'
            && value[0] != '#' && value[0] != '&' && value[0] != '-' && value.last() != ':'
            && !is_keyword(value) && !is_number_word(value),
    }
}

pub open spec fn no_space(s: Seq<char>) -> bool {
    forall|i: int| 0 <= i < s.len() ==> !is_space(#[trigger] s[i])
}

/// The same token at another location.
pub open spec fn with_loc(t: TokenV, loc: LocV) -> TokenV {
    match t {
        TokenV::Keyword { value, .. } => TokenV::Keyword { value, loc },
        TokenV::Label { value, .. } => TokenV::Label { value, loc },
        TokenV::Char { value, .. } => TokenV::Char { value, loc },
        TokenV::Number { value, .. } => TokenV::Number { value, loc },
        TokenV::Register { value, .. } => TokenV::Register { value, loc },
        TokenV::Memory { value, .. } => TokenV::Memory { value, loc },
        TokenV::Identifier { value, .. } => TokenV::Identifier { value, loc },
    }
}

/// The round trip of printing: classifying a token's printed word gives the
/// token back, whatever location the lexer stamps on it. A printed word is
/// never empty, never whitespace-broken, never a comment, and never a lone
/// dot.
pub proof fn law_render_round_trip(t: TokenV, loc: LocV)
    requires
        lexable(t),
    ensures
        token_text(t).len() > 0,
        !bad_char_word(token_text(t)),
        no_space(token_text(t)),
        token_text(t)[0] != '-',
        classify_spec(token_text(t), loc) == with_loc(t, loc),
{
    let w = token_text(t);
    match t {
        TokenV::Char { value, .. } => {
            assert(w == seq!['.', value]);
            assert(w[0] == '.' && w[1] == value);
            assert(no_space(w));
        },
        TokenV::Label { value, .. } => {
            assert(w == value.push(':'));
            assert(w.last() == ':');
            assert(w.drop_last() =~= value);
            assert(w[0] != '.' && w[0] != '-');
            assert(no_space(w)) by {
                assert forall|i: int| 0 <= i < w.len() implies !is_space(#[trigger] w[i]) by {
                    if i < value.len() {
                        assert(w[i] == value[i]);
                    }
                }
            }
        },
        TokenV::Register { value, .. } => {
            assert(w == seq!['#'] + value);
            assert(w[0] == '#');
            assert(w.drop_first() =~= value);
            assert(w.last() != ':');
            assert(no_space(w)) by {
                assert forall|i: int| 0 <= i < w.len() implies !is_space(#[trigger] w[i]) by {
                    if i >= 1 {
                        assert(w[i] == value[i - 1]);
                    }
                }
            }
        },
        TokenV::Memory { value, .. } => {
            assert(w == seq!['&'] + value);
            assert(w[0] == '&');
            assert(w.drop_first() =~= value);
            assert(w.last() != ':');
            assert(no_space(w)) by {
                assert forall|i: int| 0 <= i < w.len() implies !is_space(#[trigger] w[i]) by {
                    if i >= 1 {
                        assert(w[i] == value[i - 1]);
                    }
                }
            }
        },
        TokenV::Keyword { value, .. } => {
            assert(w == value);
            assert(w[0] != '.' && w[0] != '#' && w[0] != '&' && w[0] != '-' && w.last() != ':');
            assert(no_space(w));
        },
        TokenV::Number { value, .. } => {
            lemma_dec_render(value as nat);
            assert(w == dec_render(value as nat));
            assert(is_digit(w[0]));
            assert(is_digit(w.last()));
            assert(!is_keyword(w)) by {
                lemma_keyword_not_digits_contra(w);
            }
            assert(is_number_word(w));
            assert(no_space(w)) by {
                assert forall|i: int| 0 <= i < w.len() implies !is_space(#[trigger] w[i]) by {
                    assert(is_digit(w[i]));
                }
            }
        },
        TokenV::Identifier { value, .. } => {
            assert(w == value);
        },
    }
}

/// A digit string is no keyword.
proof fn lemma_keyword_not_digits_contra(w: Seq<char>)
    requires
        all_digits(w),
        w.len() > 0,
    ensures
        !is_keyword(w),
{
    assert(is_digit(w[0]));
}

/// A word as the lexer cuts words: non-empty, whitespace-free, no comment
/// opener, and no lone dot.
pub open spec fn good_word(w: Seq<char>) -> bool {
    w.len() > 0 && no_space(w) && w[0] != '-' && !bad_char_word(w)
}

pub open spec fn good_words(ws: Seq<Seq<char>>) -> bool {
    forall|k: int| 0 <= k < ws.len() ==> good_word(#[trigger] ws[k])
}

/// Do the words `ws`, separated by single spaces, fill `text` from `i` to
/// its end?
pub open spec fn words_at(text: Seq<char>, i: int, ws: Seq<Seq<char>>) -> bool
    decreases ws.len(),
{
    if ws.len() == 0 {
        i == text.len()
    } else {
        &&& 0 <= i
        &&& i + ws[0].len() <= text.len()
        &&& text.subrange(i, i + ws[0].len()) == ws[0]
        &&& if ws.len() == 1 {
            i + ws[0].len() == text.len()
        } else {
            i + ws[0].len() < text.len() && text[i + ws[0].len()] == ' ' && words_at(
                text,
                i + ws[0].len() + 1,
                ws.drop_first(),
            )
        }
    }
}

/// The tokens the lexer yields for words laid out from `i`.
pub open spec fn lexed_words(
    file: Seq<char>,
    text: Seq<char>,
    i: int,
    ws: Seq<Seq<char>>,
) -> Seq<TokenV>
    decreases ws.len(),
{
    if ws.len() == 0 {
        Seq::empty()
    } else {
        seq![
            classify_spec(
                ws[0],
                LocV { file, line: line_of(text, i), column: col_of(text, i) },
            ),
        ] + lexed_words(file, text, i + ws[0].len() + 1, ws.drop_first())
    }
}

/// A run of non-whitespace up to a space or the end is one word.
proof fn lemma_word_end_run(text: Seq<char>, i: int, e: int)
    requires
        0 <= i <= e <= text.len(),
        forall|j: int| i <= j < e ==> !is_space(#[trigger] text[j]),
        e == text.len() || is_space(text[e]),
    ensures
        word_end(text, i) == e,
    decreases e - i,
{
    if i < e {
        lemma_word_end_run(text, i + 1, e);
    }
}

/// Words separated by single spaces lex to their classifications, one each.
proof fn lemma_words_lex(file: Seq<char>, text: Seq<char>, i: int, ws: Seq<Seq<char>>)
    requires
        0 <= i <= text.len(),
        words_at(text, i, ws),
        good_words(ws),
    ensures
        lexes_to(file, text, i, lexed_words(file, text, i, ws)),
    decreases ws.len(),
{
    if ws.len() == 0 {
        assert(skip_spaces(text, i) == i);
        assert(next_word_start(text, i) == i);
    } else {
        let w = ws[0];
        let e = i + w.len();
        assert(good_word(w));
        assert forall|j: int| i <= j < e implies !is_space(#[trigger] text[j]) by {
            assert(text.subrange(i, e)[j - i] == text[j]);
            assert(w[j - i] == text[j]);
        }
        assert(text[i] == w[0]);
        assert(skip_spaces(text, i) == i);
        assert(next_word_start(text, i) == i);
        lemma_word_end_run(text, i, e);
        assert(text.subrange(i, e) == w);
        let toks = lexed_words(file, text, i, ws);
        assert(toks[0] == classify_spec(
            w,
            LocV { file, line: line_of(text, i), column: col_of(text, i) },
        ));
        if ws.len() == 1 {
            assert(e == text.len());
            assert(toks.drop_first() =~= lexed_words(file, text, e + 1, ws.drop_first()));
            assert(lexed_words(file, text, e + 1, ws.drop_first()) =~= Seq::<TokenV>::empty());
            assert(skip_spaces(text, e) == e);
            assert(next_word_start(text, e) == e);
            assert(lexes_to(file, text, e, Seq::<TokenV>::empty()));
        } else {
            let ws1 = ws.drop_first();
            assert(words_at(text, e + 1, ws1));
            assert(good_words(ws1)) by {
                assert forall|k: int| 0 <= k < ws1.len() implies good_word(
                    #[trigger] ws1[k],
                ) by {
                    assert(ws1[k] == ws[k + 1]);
                }
            }
            lemma_words_lex(file, text, e + 1, ws1);
            let rest = lexed_words(file, text, e + 1, ws1);
            assert(toks.drop_first() =~= rest);
            // at `e` sits the single separating space; the next word begins
            // just after it
            assert(text[e + 1] == ws1[0][0]) by {
                assert(text.subrange(e + 1, e + 1 + ws1[0].len())[0] == text[e + 1]);
            }
            assert(!is_space(text[e + 1]) && text[e + 1] != '-');
            assert(skip_spaces(text, e + 1) == e + 1);
            assert(skip_spaces(text, e) == skip_spaces(text, e + 1));
            assert(next_word_start(text, e) == e + 1);
            assert(next_word_start(text, e + 1) == e + 1);
            assert(lexes_to(file, text, e, rest) == lexes_to(file, text, e + 1, rest));
        }
    }
}

/// The text of joined words carries exactly those words.
proof fn lemma_join_at(text: Seq<char>, i: int, ws: Seq<Seq<char>>)
    requires
        0 <= i <= text.len(),
        text.subrange(i, text.len() as int) == join_words(ws),
        forall|k: int| 0 <= k < ws.len() ==> (#[trigger] ws[k]).len() > 0,
    ensures
        words_at(text, i, ws),
    decreases ws.len(),
{
    if ws.len() == 0 {
    } else if ws.len() == 1 {
        assert(text.subrange(i, text.len() as int).len() == ws[0].len());
        assert(text.subrange(i, i + ws[0].len()) =~= text.subrange(i, text.len() as int));
    } else {
        let w = ws[0];
        let e = i + w.len();
        let tail = join_words(ws.drop_first());
        assert(text.subrange(i, text.len() as int) == w + seq![' '] + tail);
        assert(text.len() - i == w.len() + 1 + tail.len());
        assert(text.subrange(i, e) =~= w) by {
            assert forall|j: int| 0 <= j < w.len() implies text.subrange(i, e)[j] == w[j] by {
                assert(text[i + j] == text.subrange(i, text.len() as int)[j]);
                assert((w + seq![' '] + tail)[j] == w[j]);
            }
        }
        assert(text[e] == ' ') by {
            assert(text[e] == text.subrange(i, text.len() as int)[w.len() as int]);
            assert((w + seq![' '] + tail)[w.len() as int] == ' ');
        }
        assert(text.subrange(e + 1, text.len() as int) =~= tail) by {
            assert forall|j: int| 0 <= j < tail.len() implies text.subrange(
                e + 1,
                text.len() as int,
            )[j] == tail[j] by {
                assert(text[e + 1 + j] == text.subrange(i, text.len() as int)[w.len() + 1
                    + j]);
                assert((w + seq![' '] + tail)[w.len() + 1 + j] == tail[j]);
            }
        }
        lemma_join_at(text, e + 1, ws.drop_first());
    }
}

/// Relocating a classification only moves its location.
proof fn lemma_classify_reloc(w: Seq<char>, l1: LocV, l2: LocV)
    ensures
        with_loc(classify_spec(w, l1), l2) == classify_spec(w, l2),
{
}

/// A fixed location to compare token values under.
pub open spec fn zero_loc() -> LocV {
    LocV { file: Seq::empty(), line: 0, column: 0 }
}

/// The same tokens, wherever they were read.
pub open spec fn same_token_values(a: Seq<TokenV>, b: Seq<TokenV>) -> bool {
    a.len() == b.len() && forall|k: int|
        0 <= k < a.len() ==> with_loc(#[trigger] a[k], zero_loc()) == with_loc(
            b[k],
            zero_loc(),
        )
}

/// Classifications of laid-out words, locations normalised.
proof fn lemma_lexed_shape(file: Seq<char>, text: Seq<char>, i: int, ws: Seq<Seq<char>>)
    ensures
        lexed_words(file, text, i, ws).len() == ws.len(),
        forall|k: int|
            0 <= k < ws.len() ==> with_loc(
                #[trigger] lexed_words(file, text, i, ws)[k],
                zero_loc(),
            ) == classify_spec(ws[k], zero_loc()),
    decreases ws.len(),
{
    if ws.len() > 0 {
        lemma_lexed_shape(file, text, i + ws[0].len() + 1, ws.drop_first());
        let toks = lexed_words(file, text, i, ws);
        let rest = lexed_words(file, text, i + ws[0].len() + 1, ws.drop_first());
        lemma_classify_reloc(
            ws[0],
            LocV { file, line: line_of(text, i), column: col_of(text, i) },
            zero_loc(),
        );
        assert forall|k: int| 0 <= k < ws.len() implies with_loc(
            #[trigger] toks[k],
            zero_loc(),
        ) == classify_spec(ws[k], zero_loc()) by {
            if k > 0 {
                assert(toks[k] == rest[k - 1]);
                assert(ws.drop_first()[k - 1] == ws[k]);
            }
        }
    }
}

/// The tokens a statement is made of: its label, its keyword, its operands.
pub open spec fn statement_token_list(s: StatementV) -> Seq<TokenV> {
    (match s.label {
        Some(t) => seq![t],
        None => Seq::<TokenV>::empty(),
    }) + (if s.op is NOP {
        Seq::<TokenV>::empty()
    } else {
        seq![TokenV::Keyword { value: op_word(s.op), loc: zero_loc() }]
    }) + s.body
}

/// Every keyword's word classifies back as that keyword.
proof fn lemma_op_word_keyword(op: OpV, loc: LocV)
    requires
        !(op is NOP),
    ensures
        is_keyword(op_word(op)),
        good_word(op_word(op)),
        classify_spec(op_word(op), loc) == (TokenV::Keyword { value: op_word(op), loc }),
{
    match op {
        OpV::MOV(_) => {},
        OpV::ADD(_) => {},
        OpV::SUB(_) => {},
        OpV::CMP(_) => {},
        OpV::JLT(_) => {},
        OpV::JGT(_) => {},
        OpV::JEQ(_) => {},
        OpV::JNE(_) => {},
        OpV::JMP(_) => {},
        OpV::RUN(_) => {},
        OpV::RET(_) => {},
        OpV::DIE(_) => {},
        OpV::OUT(_) => {},
        OpV::PRT(_) => {},
        OpV::DBG(_) => {},
        OpV::INC(_) => {},
        OpV::RDN(_) => {},
        OpV::RDC(_) => {},
        OpV::RLN(_) => {},
        OpV::NOP => {},
    }
}

/// Lexing a pretty-printed statement yields the statement's own tokens
/// back: the label's, the operation's keyword, and each operand's, in
/// order, locations aside. A bare unlabelled `NOP` prints as nothing, so it
/// is left out; every printed token must be one the lexer can cut back out
/// (`lexable`).
pub proof fn law_statement_round_trip(file: Seq<char>, s: StatementV)
    requires
        s.label matches Some(t) ==> lexable(t) && t is Label,
        s.op is NOP ==> s.label is Some,
        forall|k: int| 0 <= k < s.body.len() ==> lexable(#[trigger] s.body[k]),
    ensures
        lexes_to(
            file,
            statement_text(s),
            0,
            lexed_words(file, statement_text(s), 0, statement_words(s)),
        ),
        same_token_values(
            lexed_words(file, statement_text(s), 0, statement_words(s)),
            statement_token_list(s),
        ),
{
    let ws = statement_words(s);
    let text = statement_text(s);
    let toks = statement_token_list(s);
    let head: int = if s.label is Some {
        1int
    } else {
        0int
    };
    let opn: int = if s.op is NOP {
        0int
    } else {
        1int
    };
    assert(ws.len() == head + opn + s.body.len());
    assert(toks.len() == ws.len());
    assert forall|k: int| 0 <= k < ws.len() implies good_word(#[trigger] ws[k])
        && classify_spec(ws[k], zero_loc()) == with_loc(toks[k], zero_loc()) by {
        if k < head {
            let t = s.label->Some_0;
            law_render_round_trip(t, zero_loc());
            assert(ws[k] == token_text(t));
            assert(toks[k] == t);
        } else if k < head + opn {
            lemma_op_word_keyword(s.op, zero_loc());
            assert(ws[k] == op_word(s.op));
            assert(toks[k] == (TokenV::Keyword { value: op_word(s.op), loc: zero_loc() }));
        } else {
            let t = s.body[k - head - opn];
            law_render_round_trip(t, zero_loc());
            assert(ws[k] == token_text(t));
            assert(toks[k] == t);
        }
    }
    assert(text.subrange(0, text.len() as int) =~= join_words(ws));
    lemma_join_at(text, 0, ws);
    lemma_words_lex(file, text, 0, ws);
    lemma_lexed_shape(file, text, 0, ws);
    assert forall|k: int| 0 <= k < ws.len() implies with_loc(
        #[trigger] lexed_words(file, text, 0, ws)[k],
        zero_loc(),
    ) == with_loc(toks[k], zero_loc()) by {
        lemma_classify_reloc(ws[k], zero_loc(), zero_loc());
    }
}

} // verus!
