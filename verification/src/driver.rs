//! The preprocessor driver: walks a file's directive events, maintains
//! the macro table and the skip state, emits surviving source bytes into
//! the output buffer, and recurses on inclusions. Its meaning is pinned
//! down by the spec functions `eval_from` and `eval_unit`; the executable
//! driver returns exactly what they denote.

use vstd::prelude::*;
use crate::defines::Defines;
use crate::range::Range;
use crate::text::{
    extends_to, faithful, lemma_extends_refl, lemma_extends_trans, lemma_merge_extends,
    lemma_merge_model_faithful, lemma_merge_model_wf, lemma_origin_byte, lemma_origin_unique,
    lemma_push_extends, lemma_push_model_faithful, lemma_push_model_wf, origin_matches,
    PreprocessedText, TextModel,
};
use crate::tree::{cu_wf, event_wf, unit_wf, CompilationUnit, ElsifArm, ErrorModel, Event, PpError};

verus! {

/// The driver's state between events: the skip flag, the labels of the
/// groups of lines scheduled for skipping, the macro table, and the
/// output so far.
#[verifier::ext_equal]
pub struct DriveState {
    pub skip: bool,
    pub marks: Seq<u32>,
    pub defines: Set<Seq<u8>>,
    pub out: TextModel,
}

pub open spec fn init_state(defines: Set<Seq<u8>>) -> DriveState {
    DriveState { skip: false, marks: Seq::empty(), defines, out: TextModel::empty() }
}

/// The labels scheduled for skipping by the `elsif` arms from index `k`
/// on, given whether an earlier test already hit.
pub open spec fn elsif_marks_from(
    elsifs: Seq<ElsifArm>,
    k: int,
    hit: bool,
    defines: Set<Seq<u8>>,
) -> Seq<u32>
    decreases elsifs.len() - k,
{
    if k < 0 || k >= elsifs.len() {
        Seq::empty()
    } else {
        let arm = elsifs[k];
        if hit {
            seq![arm.body] + elsif_marks_from(elsifs, k + 1, true, defines)
        } else if defines.contains(arm.id@) {
            elsif_marks_from(elsifs, k + 1, true, defines)
        } else {
            seq![arm.body] + elsif_marks_from(elsifs, k + 1, false, defines)
        }
    }
}

/// Whether some branch of the chain has hit after the `elsif` arms from
/// index `k` on are evaluated.
pub open spec fn elsif_hit_from(
    elsifs: Seq<ElsifArm>,
    k: int,
    hit: bool,
    defines: Set<Seq<u8>>,
) -> bool
    decreases elsifs.len() - k,
{
    if k < 0 || k >= elsifs.len() {
        hit
    } else {
        elsif_hit_from(elsifs, k + 1, hit || defines.contains(elsifs[k].id@), defines)
    }
}

/// The labels that one whole `ifdef`/`ifndef` chain schedules for
/// skipping, evaluated against `defines`: the first not-taken body, every
/// `elsif` body except the first whose test hits after a miss, and the
/// `else` body if some earlier branch hit.
pub open spec fn cond_marks(
    inverted: bool,
    first_id: Seq<u8>,
    first_body: u32,
    elsifs: Seq<ElsifArm>,
    else_body: Option<u32>,
    defines: Set<Seq<u8>>,
) -> Seq<u32> {
    let taken = if inverted {
        !defines.contains(first_id)
    } else {
        defines.contains(first_id)
    };
    let first = if taken {
        Seq::<u32>::empty()
    } else {
        seq![first_body]
    };
    let ms = first + elsif_marks_from(elsifs, 0, taken, defines);
    match else_body {
        Some(b) => if elsif_hit_from(elsifs, 0, taken, defines) {
            ms.push(b)
        } else {
            ms
        },
        None => ms,
    }
}

/// The driver's meaning, one event at a time: the state after processing
/// the events of unit `j` from index `i` on, starting in state `st`, or
/// the first error met. An event machine drives it: entering or
/// leaving a scheduled group of lines toggles the skip flag whatever its
/// value; every other event acts only when not skipping.
pub open spec fn eval_from(cu: CompilationUnit, j: int, i: int, st: DriveState) -> Result<
    DriveState,
    ErrorModel,
>
    decreases cu.units@.len() - j, cu.units@[j].events@.len() - i,
{
    if j < 0 || j >= cu.units@.len() || i < 0 || i >= cu.units@[j].events@.len() {
        Ok(st)
    } else {
        let u = cu.units@[j];
        match u.events@[i] {
            Event::BodyEnter { body } => eval_from(
                cu,
                j,
                i + 1,
                if st.marks.contains(body) {
                    DriveState { skip: true, ..st }
                } else {
                    st
                },
            ),
            Event::BodyLeave { body } => eval_from(
                cu,
                j,
                i + 1,
                if st.marks.contains(body) {
                    DriveState { skip: false, ..st }
                } else {
                    st
                },
            ),
            Event::ResetAll => eval_from(
                cu,
                j,
                i + 1,
                if st.skip {
                    st
                } else {
                    DriveState { defines: Set::empty(), ..st }
                },
            ),
            Event::UndefineAll => eval_from(
                cu,
                j,
                i + 1,
                if st.skip {
                    st
                } else {
                    DriveState { defines: Set::empty(), ..st }
                },
            ),
            Event::Undefine { name } => eval_from(
                cu,
                j,
                i + 1,
                if st.skip {
                    st
                } else {
                    DriveState { defines: st.defines.remove(name@), ..st }
                },
            ),
            Event::Define { name } => eval_from(
                cu,
                j,
                i + 1,
                if st.skip {
                    st
                } else {
                    DriveState { defines: st.defines.insert(name@), ..st }
                },
            ),
            Event::SourceText { begin, end } => eval_from(
                cu,
                j,
                i + 1,
                if st.skip {
                    st
                } else {
                    DriveState {
                        out: st.out.push_model(
                            u.src@.subrange(begin as int, end as int),
                            u.path@,
                            begin as int,
                            end as int,
                        ),
                        ..st
                    }
                },
            ),
            Event::Cond { inverted, first_id, first_body, elsifs, else_body } => eval_from(
                cu,
                j,
                i + 1,
                if st.skip {
                    st
                } else {
                    DriveState {
                        marks: st.marks + cond_marks(
                            inverted,
                            first_id@,
                            first_body,
                            elsifs@,
                            else_body,
                            st.defines,
                        ),
                        ..st
                    }
                },
            ),
            Event::Inclusion { filename: _, loaded } => {
                if st.skip {
                    eval_from(cu, j, i + 1, st)
                } else {
                    match loaded {
                        Result::Ok(j2) => {
                            if j < j2 as int && (j2 as int) < cu.units@.len() {
                                match eval_unit(cu, j2 as int, st.defines) {
                                    Ok(t) => eval_from(
                                        cu,
                                        j,
                                        i + 1,
                                        DriveState { out: st.out.merge_model(t), ..st },
                                    ),
                                    Err(e) => Err(e),
                                }
                            } else {
                                Err(ErrorModel::TooDeep { path: u.path@ })
                            }
                        },
                        Result::Err(pe) => Err(pe@),
                    }
                }
            },
        }
    }
}

/// The meaning of preprocessing the unit at index `j` with the given
/// macro table: the output buffer its events denote. The table is taken
/// by value, so names defined inside a unit never flow back to the
/// caller that merged it.
pub open spec fn eval_unit(cu: CompilationUnit, j: int, defines: Set<Seq<u8>>) -> Result<
    TextModel,
    ErrorModel,
>
    decreases cu.units@.len() - j, cu.units@[j].events@.len() + 1,
{
    if j < 0 || j >= cu.units@.len() {
        Err(ErrorModel::TooDeep { path: Seq::empty() })
    } else {
        match eval_from(cu, j, 0, init_state(defines)) {
            Ok(st) => Ok(st.out),
            Err(e) => Err(e),
        }
    }
}

/// Whether a label is scheduled for skipping.
fn marks_contain(marks: &Vec<u32>, body: u32) -> (r: bool)
    ensures
        r == marks@.contains(body),
{
    let mut i: usize = 0;
    while i < marks.len()
        invariant
            i <= marks@.len(),
            forall|k: int| 0 <= k < i ==> marks@[k] != body,
        decreases marks@.len() - i,
    {
        if marks[i] == body {
            return true;
        }
        i = i + 1;
    }
    false
}

/// A copy of the bytes of `v` at `[begin, end)`.
fn subvec(v: &Vec<u8>, begin: usize, end: usize) -> (r: Vec<u8>)
    requires
        begin <= end <= v@.len(),
    ensures
        r@ == v@.subrange(begin as int, end as int),
{
    let mut r: Vec<u8> = Vec::new();
    let mut i: usize = begin;
    while i < end
        invariant
            begin <= i <= end,
            r@ == v@.subrange(begin as int, i as int),
        decreases end - i,
    {
        r.push(v[i]);
        proof {
            assert(r@ =~= v@.subrange(begin as int, i + 1 as int));
        }
        i = i + 1;
    }
    r
}

/// Run the driver over the unit at index `j`, seeded with a copy of
/// `predefines`. Returns exactly what `eval_unit` denotes.
fn run_unit(cu: &CompilationUnit, j: usize, predefines: &Defines) -> (r: Result<
    PreprocessedText,
    PpError,
>)
    requires
        cu_wf(*cu),
        j < cu.units@.len(),
    ensures
        (match r {
            Ok(t) => t.wf() && eval_unit(*cu, j as int, predefines@) == Ok::<
                TextModel,
                ErrorModel,
            >(t@),
            Err(e) => eval_unit(*cu, j as int, predefines@) == Err::<TextModel, ErrorModel>(e@),
        }),
    decreases cu.units@.len() - j,
{
    let u = &cu.units[j];
    let mut skip = false;
    let mut marks: Vec<u32> = Vec::new();
    let mut defines = predefines.duplicate();
    let mut ret = PreprocessedText::new();
    proof {
        assert(DriveState { skip: skip, marks: marks@, defines: defines@, out: ret@ }
            =~= init_state(predefines@));
    }
    let mut i: usize = 0;
    while i < u.events.len()
        invariant
            cu_wf(*cu),
            j < cu.units@.len(),
            *u == cu.units@[j as int],
            i <= u.events@.len(),
            ret.wf(),
            eval_from(*cu, j as int, 0, init_state(predefines@)) == eval_from(
                *cu,
                j as int,
                i as int,
                DriveState { skip: skip, marks: marks@, defines: defines@, out: ret@ },
            ),
        decreases u.events@.len() - i,
    {
        let ghost st0 = DriveState { skip: skip, marks: marks@, defines: defines@, out: ret@ };
        proof {
            assert(unit_wf(cu.units@[j as int], j as int, cu.units@.len() as int));
            assert(event_wf(
                u.events@[i as int],
                u.src@.len() as int,
                j as int,
                cu.units@.len() as int,
            ));
        }
        match &u.events[i] {
            Event::BodyEnter { body } => {
                if marks_contain(&marks, *body) {
                    skip = true;
                }
            },
            Event::BodyLeave { body } => {
                if marks_contain(&marks, *body) {
                    skip = false;
                }
            },
            Event::ResetAll => {
                if !skip {
                    defines.clear();
                }
            },
            Event::UndefineAll => {
                if !skip {
                    defines.clear();
                }
            },
            Event::Undefine { name } => {
                if !skip {
                    defines.remove(name);
                }
            },
            Event::Define { name } => {
                if !skip {
                    let owned = crate::text::clone_bytes(name);
                    defines.insert(owned);
                }
            },
            Event::SourceText { begin, end } => {
                if !skip {
                    let slice = subvec(&u.src, *begin, *end);
                    let range = Range::new(*begin, *end);
                    ret.push(&slice, &u.path, range);
                }
            },
            Event::Cond { inverted, first_id, first_body, elsifs, else_body } => {
                if !skip {
                    let ghost marks0 = marks@;
                    let taken = if *inverted {
                        !defines.contains(first_id)
                    } else {
                        defines.contains(first_id)
                    };
                    let mut hit = taken;
                    if !taken {
                        marks.push(*first_body);
                    }
                    let ghost first_part: Seq<u32> = if taken {
                        Seq::empty()
                    } else {
                        seq![*first_body]
                    };
                    proof {
                        assert(marks@ =~= marks0 + first_part);
                    }
                    let mut k: usize = 0;
                    while k < elsifs.len()
                        invariant
                            k <= elsifs@.len(),
                            marks@ + elsif_marks_from(elsifs@, k as int, hit, defines@) == marks0
                                + first_part + elsif_marks_from(elsifs@, 0, taken, defines@),
                            elsif_hit_from(elsifs@, k as int, hit, defines@) == elsif_hit_from(
                                elsifs@,
                                0,
                                taken,
                                defines@,
                            ),
                        decreases elsifs@.len() - k,
                    {
                        let ghost marks_k = marks@;
                        let ghost hit_k = hit;
                        let arm = &elsifs[k];
                        if hit {
                            marks.push(arm.body);
                        } else if defines.contains(&arm.id) {
                            hit = true;
                        } else {
                            marks.push(arm.body);
                        }
                        proof {
                            assert(elsif_marks_from(elsifs@, k as int, hit_k, defines@) == (
                            if hit_k || !defines@.contains(elsifs@[k as int].id@) {
                                seq![elsifs@[k as int].body] + elsif_marks_from(
                                    elsifs@,
                                    k + 1 as int,
                                    hit_k || defines@.contains(elsifs@[k as int].id@),
                                    defines@,
                                )
                            } else {
                                elsif_marks_from(elsifs@, k + 1 as int, true, defines@)
                            }));
                            assert(marks@ + elsif_marks_from(elsifs@, k + 1 as int, hit, defines@)
                                =~= marks_k + elsif_marks_from(elsifs@, k as int, hit_k, defines@));
                        }
                        k = k + 1;
                    }
                    match else_body {
                        Some(b) => {
                            if hit {
                                marks.push(*b);
                            }
                        },
                        None => {},
                    }
                    proof {
                        assert(marks@ =~= marks0 + cond_marks(
                            *inverted,
                            first_id@,
                            *first_body,
                            elsifs@,
                            *else_body,
                            defines@,
                        ));
                    }
                }
            },
            Event::Inclusion { filename: _, loaded } => {
                if !skip {
                    match loaded {
                        Result::Ok(j2) => {
                            let sub = run_unit(cu, *j2, &defines);
                            match sub {
                                Ok(t) => {
                                    ret.merge(t);
                                },
                                Err(e) => {
                                    proof {
                                        assert(eval_from(*cu, j as int, i as int, st0) == Err::<
                                            DriveState,
                                            ErrorModel,
                                        >(e@));
                                    }
                                    return Err(e);
                                },
                            }
                        },
                        Result::Err(pe) => {
                            let e = crate::tree::clone_error(pe);
                            proof {
                                assert(eval_from(*cu, j as int, i as int, st0) == Err::<
                                    DriveState,
                                    ErrorModel,
                                >(e@));
                            }
                            return Err(e);
                        },
                    }
                }
            },
        }
        proof {
            let st1 = DriveState { skip: skip, marks: marks@, defines: defines@, out: ret@ };
            assert(eval_from(*cu, j as int, i as int, st0) == eval_from(
                *cu,
                j as int,
                i as int + 1,
                st1,
            ));
        }
        i = i + 1;
    }
    proof {
        assert(eval_from(*cu, j as int, i as int, DriveState {
            skip: skip,
            marks: marks@,
            defines: defines@,
            out: ret@,
        }) == Ok::<DriveState, ErrorModel>(DriveState {
            skip: skip,
            marks: marks@,
            defines: defines@,
            out: ret@,
        }));
    }
    Ok(ret)
}

/// Preprocess a whole compilation unit: run the driver over its root
/// file, seeded with the given predefined names. Returns the flattened
/// output with its origin map, or the first error met; the result is
/// exactly what `eval_unit` denotes on the root.
pub fn preprocess(cu: &CompilationUnit, predefines: &Defines) -> (r: Result<
    PreprocessedText,
    PpError,
>)
    requires
        cu_wf(*cu),
    ensures
        (match r {
            Ok(t) => t.wf() && eval_unit(*cu, cu.root as int, predefines@) == Ok::<
                TextModel,
                ErrorModel,
            >(t@),
            Err(e) => eval_unit(*cu, cu.root as int, predefines@) == Err::<
                TextModel,
                ErrorModel,
            >(e@),
        }),
{
    run_unit(cu, cu.root, predefines)
}

/// Whether `files` describes the bytes the compilation unit was loaded
/// from: each unit's recorded bytes are the contents of its path.
pub open spec fn cu_files_ok(cu: CompilationUnit, files: Map<Seq<u8>, Seq<u8>>) -> bool {
    forall|i: int|
        0 <= i < cu.units@.len() ==> {
            let u = #[trigger] cu.units@[i];
            files.dom().contains(u.path@) && files[u.path@] == u.src@
        }
}

/// Driving events forward only appends to the output: whatever the
/// starting output held stands unaltered as a prefix of the result.
pub proof fn lemma_eval_from_extends(cu: CompilationUnit, j: int, i: int, st: DriveState)
    ensures
        (match eval_from(cu, j, i, st) {
            Ok(st2) => extends_to(st.out, st2.out),
            Err(_) => true,
        }),
    decreases cu.units@.len() - j, cu.units@[j].events@.len() - i,
{
    if j < 0 || j >= cu.units@.len() || i < 0 || i >= cu.units@[j].events@.len() {
        lemma_extends_refl(st.out);
    } else {
        let u = cu.units@[j];
        match u.events@[i] {
            Event::BodyEnter { body } => {
                let st1 = if st.marks.contains(body) {
                    DriveState { skip: true, ..st }
                } else {
                    st
                };
                lemma_eval_from_extends(cu, j, i + 1, st1);
                lemma_extends_refl(st.out);
            },
            Event::BodyLeave { body } => {
                let st1 = if st.marks.contains(body) {
                    DriveState { skip: false, ..st }
                } else {
                    st
                };
                lemma_eval_from_extends(cu, j, i + 1, st1);
                lemma_extends_refl(st.out);
            },
            Event::ResetAll => {
                let st1 = if st.skip {
                    st
                } else {
                    DriveState { defines: Set::empty(), ..st }
                };
                lemma_eval_from_extends(cu, j, i + 1, st1);
                lemma_extends_refl(st.out);
            },
            Event::UndefineAll => {
                let st1 = if st.skip {
                    st
                } else {
                    DriveState { defines: Set::empty(), ..st }
                };
                lemma_eval_from_extends(cu, j, i + 1, st1);
                lemma_extends_refl(st.out);
            },
            Event::Undefine { name } => {
                let st1 = if st.skip {
                    st
                } else {
                    DriveState { defines: st.defines.remove(name@), ..st }
                };
                lemma_eval_from_extends(cu, j, i + 1, st1);
                lemma_extends_refl(st.out);
            },
            Event::Define { name } => {
                let st1 = if st.skip {
                    st
                } else {
                    DriveState { defines: st.defines.insert(name@), ..st }
                };
                lemma_eval_from_extends(cu, j, i + 1, st1);
                lemma_extends_refl(st.out);
            },
            Event::SourceText { begin, end } => {
                if st.skip {
                    lemma_eval_from_extends(cu, j, i + 1, st);
                    lemma_extends_refl(st.out);
                } else {
                    let s = u.src@.subrange(begin as int, end as int);
                    let st1 = DriveState {
                        out: st.out.push_model(s, u.path@, begin as int, end as int),
                        ..st
                    };
                    lemma_push_extends(st.out, s, u.path@, begin as int, end as int);
                    lemma_eval_from_extends(cu, j, i + 1, st1);
                    if eval_from(cu, j, i + 1, st1) is Ok {
                        lemma_extends_trans(
                            st.out,
                            st1.out,
                            eval_from(cu, j, i + 1, st1)->Ok_0.out,
                        );
                    }
                }
            },
            Event::Cond { inverted, first_id, first_body, elsifs, else_body } => {
                let st1 = if st.skip {
                    st
                } else {
                    DriveState {
                        marks: st.marks + cond_marks(
                            inverted,
                            first_id@,
                            first_body,
                            elsifs@,
                            else_body,
                            st.defines,
                        ),
                        ..st
                    }
                };
                lemma_eval_from_extends(cu, j, i + 1, st1);
                lemma_extends_refl(st.out);
            },
            Event::Inclusion { filename: _, loaded } => {
                if st.skip {
                    lemma_eval_from_extends(cu, j, i + 1, st);
                    lemma_extends_refl(st.out);
                } else {
                    match loaded {
                        Result::Ok(j2) => {
                            if j < j2 as int && (j2 as int) < cu.units@.len() {
                                match eval_unit(cu, j2 as int, st.defines) {
                                    Ok(t) => {
                                        let st1 = DriveState {
                                            out: st.out.merge_model(t),
                                            ..st
                                        };
                                        lemma_merge_extends(st.out, t);
                                        lemma_eval_from_extends(cu, j, i + 1, st1);
                                        if eval_from(cu, j, i + 1, st1) is Ok {
                                            lemma_extends_trans(
                                                st.out,
                                                st1.out,
                                                eval_from(cu, j, i + 1, st1)->Ok_0.out,
                                            );
                                        }
                                    },
                                    Err(_) => {},
                                }
                            }
                        },
                        Result::Err(_) => {},
                    }
                }
            },
        }
    }
}

/// A `define`, `undefine`, `resetall` or `undefineall` event changes the
/// macro table and nothing else: the output built so far, the skip state
/// and the scheduled labels pass through untouched. Together with
/// `lemma_eval_from_extends` this says such directives affect only the
/// conditional tests that follow them, never bytes already emitted.
pub proof fn lemma_table_events_act_forward(cu: CompilationUnit, j: int, i: int, st: DriveState)
    requires
        0 <= j < cu.units@.len(),
        0 <= i < cu.units@[j].events@.len(),
        (cu.units@[j].events@[i] matches Event::ResetAll) || (cu.units@[j].events@[i] matches
        Event::UndefineAll) || (cu.units@[j].events@[i] matches Event::Undefine { .. }) || (
        cu.units@[j].events@[i] matches Event::Define { .. }),
    ensures
        exists|d2: Set<Seq<u8>>|
            eval_from(cu, j, i, st) == #[trigger] eval_from(
                cu,
                j,
                i + 1,
                DriveState { defines: d2, ..st },
            ),
{
    if st.skip {
        assert(DriveState { defines: st.defines, ..st } =~= st);
        assert(eval_from(cu, j, i, st) == eval_from(
            cu,
            j,
            i + 1,
            DriveState { defines: st.defines, ..st },
        ));
    } else {
        match cu.units@[j].events@[i] {
            Event::ResetAll => {
                assert(eval_from(cu, j, i, st) == eval_from(
                    cu,
                    j,
                    i + 1,
                    DriveState { defines: Set::empty(), ..st },
                ));
            },
            Event::UndefineAll => {
                assert(eval_from(cu, j, i, st) == eval_from(
                    cu,
                    j,
                    i + 1,
                    DriveState { defines: Set::empty(), ..st },
                ));
            },
            Event::Undefine { name } => {
                assert(eval_from(cu, j, i, st) == eval_from(
                    cu,
                    j,
                    i + 1,
                    DriveState { defines: st.defines.remove(name@), ..st },
                ));
            },
            Event::Define { name } => {
                assert(eval_from(cu, j, i, st) == eval_from(
                    cu,
                    j,
                    i + 1,
                    DriveState { defines: st.defines.insert(name@), ..st },
                ));
            },
            _ => {},
        }
    }
}

/// Driving events forward keeps the output well formed and faithful to
/// the files the compilation unit was loaded from.
pub proof fn lemma_eval_from_faithful(
    cu: CompilationUnit,
    files: Map<Seq<u8>, Seq<u8>>,
    j: int,
    i: int,
    st: DriveState,
)
    requires
        cu_wf(cu),
        cu_files_ok(cu, files),
        st.out.wf(),
        faithful(st.out, files),
    ensures
        (match eval_from(cu, j, i, st) {
            Ok(st2) => st2.out.wf() && faithful(st2.out, files),
            Err(_) => true,
        }),
    decreases cu.units@.len() - j, cu.units@[j].events@.len() - i,
{
    if j < 0 || j >= cu.units@.len() || i < 0 || i >= cu.units@[j].events@.len() {
    } else {
        let u = cu.units@[j];
        assert(unit_wf(u, j, cu.units@.len() as int));
        assert(event_wf(u.events@[i], u.src@.len() as int, j, cu.units@.len() as int));
        match u.events@[i] {
            Event::BodyEnter { body } => {
                let st1 = if st.marks.contains(body) {
                    DriveState { skip: true, ..st }
                } else {
                    st
                };
                lemma_eval_from_faithful(cu, files, j, i + 1, st1);
            },
            Event::BodyLeave { body } => {
                let st1 = if st.marks.contains(body) {
                    DriveState { skip: false, ..st }
                } else {
                    st
                };
                lemma_eval_from_faithful(cu, files, j, i + 1, st1);
            },
            Event::ResetAll => {
                let st1 = if st.skip {
                    st
                } else {
                    DriveState { defines: Set::empty(), ..st }
                };
                lemma_eval_from_faithful(cu, files, j, i + 1, st1);
            },
            Event::UndefineAll => {
                let st1 = if st.skip {
                    st
                } else {
                    DriveState { defines: Set::empty(), ..st }
                };
                lemma_eval_from_faithful(cu, files, j, i + 1, st1);
            },
            Event::Undefine { name } => {
                let st1 = if st.skip {
                    st
                } else {
                    DriveState { defines: st.defines.remove(name@), ..st }
                };
                lemma_eval_from_faithful(cu, files, j, i + 1, st1);
            },
            Event::Define { name } => {
                let st1 = if st.skip {
                    st
                } else {
                    DriveState { defines: st.defines.insert(name@), ..st }
                };
                lemma_eval_from_faithful(cu, files, j, i + 1, st1);
            },
            Event::SourceText { begin, end } => {
                if st.skip {
                    lemma_eval_from_faithful(cu, files, j, i + 1, st);
                } else {
                    let s = u.src@.subrange(begin as int, end as int);
                    assert(files.dom().contains(u.path@) && files[u.path@] == u.src@);
                    assert(s == files[u.path@].subrange(begin as int, end as int));
                    lemma_push_model_wf(st.out, s, u.path@, begin as int, end as int);
                    lemma_push_model_faithful(st.out, files, s, u.path@, begin as int, end as int);
                    let st1 = DriveState {
                        out: st.out.push_model(s, u.path@, begin as int, end as int),
                        ..st
                    };
                    lemma_eval_from_faithful(cu, files, j, i + 1, st1);
                }
            },
            Event::Cond { inverted, first_id, first_body, elsifs, else_body } => {
                let st1 = if st.skip {
                    st
                } else {
                    DriveState {
                        marks: st.marks + cond_marks(
                            inverted,
                            first_id@,
                            first_body,
                            elsifs@,
                            else_body,
                            st.defines,
                        ),
                        ..st
                    }
                };
                lemma_eval_from_faithful(cu, files, j, i + 1, st1);
            },
            Event::Inclusion { filename: _, loaded } => {
                if st.skip {
                    lemma_eval_from_faithful(cu, files, j, i + 1, st);
                } else {
                    match loaded {
                        Result::Ok(j2) => {
                            if j < j2 as int && (j2 as int) < cu.units@.len() {
                                lemma_eval_unit_faithful(cu, files, j2 as int, st.defines);
                                match eval_unit(cu, j2 as int, st.defines) {
                                    Ok(t) => {
                                        lemma_merge_model_wf(st.out, t);
                                        lemma_merge_model_faithful(st.out, t, files);
                                        let st1 = DriveState {
                                            out: st.out.merge_model(t),
                                            ..st
                                        };
                                        lemma_eval_from_faithful(cu, files, j, i + 1, st1);
                                    },
                                    Err(_) => {},
                                }
                            }
                        },
                        Result::Err(_) => {},
                    }
                }
            },
        }
    }
}

/// Preprocessing a unit yields a well-formed buffer, faithful to the
/// files the compilation unit was loaded from.
pub proof fn lemma_eval_unit_faithful(
    cu: CompilationUnit,
    files: Map<Seq<u8>, Seq<u8>>,
    j: int,
    defines: Set<Seq<u8>>,
)
    requires
        cu_wf(cu),
        cu_files_ok(cu, files),
    ensures
        (match eval_unit(cu, j, defines) {
            Ok(g) => g.wf() && faithful(g, files),
            Err(_) => true,
        }),
    decreases cu.units@.len() - j, cu.units@[j].events@.len() + 1,
{
    if 0 <= j < cu.units@.len() {
        lemma_eval_from_faithful(cu, files, j, 0, init_state(defines));
    }
}

/// For every output position that an origin lookup resolves, reading one
/// byte at the identified offset of the identified file yields the same
/// byte the output holds at that position — provided each loaded unit's
/// recorded bytes agree with `files` for its path.
pub proof fn lemma_preprocess_origin_byte(
    cu: CompilationUnit,
    files: Map<Seq<u8>, Seq<u8>>,
    defines: Set<Seq<u8>>,
    g: TextModel,
    pos: int,
    path: Seq<u8>,
    q: int,
)
    requires
        cu_wf(cu),
        cu_files_ok(cu, files),
        eval_unit(cu, cu.root as int, defines) == Ok::<TextModel, ErrorModel>(g),
        origin_matches(g, pos, Some((path, q))),
    ensures
        0 <= pos < g.text.len(),
        files.dom().contains(path),
        0 <= q < files[path].len(),
        g.text[pos] == files[path][q],
{
    lemma_eval_unit_faithful(cu, files, cu.root as int, defines);
    lemma_origin_byte(g, files, pos, path, q);
}

/// A unit holding one leading raw span and a single `ifdef` chain with
/// an `else` branch, each body a single raw span, keeps exactly one
/// branch: with the tested name undefined the output is the leading span
/// followed by the `else` body's bytes; with it defined, the leading
/// span followed by the first body's bytes — each with its origin
/// record.
pub proof fn lemma_ifdef_else_selects(
    cu: CompilationUnit,
    j: int,
    defines: Set<Seq<u8>>,
    x: Seq<u8>,
    b1: u32,
    b2: u32,
    a0: usize,
    a1: usize,
    i0: usize,
    i1: usize,
    e0: usize,
    e1: usize,
)
    requires
        0 <= j < cu.units@.len(),
        b1 != b2,
        cu.units@[j].events@.len() == 8,
        cu.units@[j].events@[0] == (Event::SourceText { begin: a0, end: a1 }),
        (cu.units@[j].events@[1] matches Event::Cond {
            inverted: false,
            first_id,
            first_body,
            elsifs,
            else_body,
        } && first_id@ == x && first_body == b1 && elsifs@.len() == 0 && else_body == Some(b2)),
        cu.units@[j].events@[2] == (Event::BodyEnter { body: b1 }),
        cu.units@[j].events@[3] == (Event::SourceText { begin: i0, end: i1 }),
        cu.units@[j].events@[4] == (Event::BodyLeave { body: b1 }),
        cu.units@[j].events@[5] == (Event::BodyEnter { body: b2 }),
        cu.units@[j].events@[6] == (Event::SourceText { begin: e0, end: e1 }),
        cu.units@[j].events@[7] == (Event::BodyLeave { body: b2 }),
    ensures
        !defines.contains(x) ==> eval_unit(cu, j, defines) == Ok::<TextModel, ErrorModel>(
            TextModel::empty().push_model(
                cu.units@[j].src@.subrange(a0 as int, a1 as int),
                cu.units@[j].path@,
                a0 as int,
                a1 as int,
            ).push_model(
                cu.units@[j].src@.subrange(e0 as int, e1 as int),
                cu.units@[j].path@,
                e0 as int,
                e1 as int,
            ),
        ),
        defines.contains(x) ==> eval_unit(cu, j, defines) == Ok::<TextModel, ErrorModel>(
            TextModel::empty().push_model(
                cu.units@[j].src@.subrange(a0 as int, a1 as int),
                cu.units@[j].path@,
                a0 as int,
                a1 as int,
            ).push_model(
                cu.units@[j].src@.subrange(i0 as int, i1 as int),
                cu.units@[j].path@,
                i0 as int,
                i1 as int,
            ),
        ),
{
    let u = cu.units@[j];
    let taken = defines.contains(x);
    match u.events@[1] {
        Event::Cond { inverted, first_id, first_body, elsifs, else_body } => {
            assert(elsif_marks_from(elsifs@, 0, taken, defines) == Seq::<u32>::empty());
            assert(elsif_hit_from(elsifs@, 0, taken, defines) == taken);
            let cm = cond_marks(inverted, first_id@, first_body, elsifs@, else_body, defines);
            if taken {
                assert(cm =~= seq![b2]);
            } else {
                assert(cm =~= Seq::<u32>::empty() + seq![b1] + Seq::<u32>::empty());
                assert(cm =~= seq![b1]);
            }
            assert(seq![b1].contains(b1)) by {
                assert(seq![b1][0] == b1);
            }
            assert(seq![b2].contains(b2)) by {
                assert(seq![b2][0] == b2);
            }
            assert(!seq![b1].contains(b2)) by {
                if seq![b1].contains(b2) {
                    let w = choose|w: int| 0 <= w < seq![b1].len() && seq![b1][w] == b2;
                    assert(seq![b1][w] == b1);
                }
            }
            assert(!seq![b2].contains(b1)) by {
                if seq![b2].contains(b1) {
                    let w = choose|w: int| 0 <= w < seq![b2].len() && seq![b2][w] == b1;
                    assert(seq![b2][w] == b2);
                }
            }
            let st0 = init_state(defines);
            let out1 = TextModel::empty().push_model(
                u.src@.subrange(a0 as int, a1 as int),
                u.path@,
                a0 as int,
                a1 as int,
            );
            let st1 = DriveState { out: out1, ..st0 };
            assert(eval_from(cu, j, 0, st0) == eval_from(cu, j, 1, st1));
            let st2 = DriveState { marks: st0.marks + cm, ..st1 };
            assert(eval_from(cu, j, 1, st1) == eval_from(cu, j, 2, st2));
            assert(st2.marks =~= cm);
            if !taken {
                assert(st2.marks.contains(b1) && !st2.marks.contains(b2));
                let st3 = DriveState { skip: true, ..st2 };
                assert(eval_from(cu, j, 2, st2) == eval_from(cu, j, 3, st3));
                assert(eval_from(cu, j, 3, st3) == eval_from(cu, j, 4, st3));
                let st5 = DriveState { skip: false, ..st3 };
                assert(eval_from(cu, j, 4, st3) == eval_from(cu, j, 5, st5));
                assert(eval_from(cu, j, 5, st5) == eval_from(cu, j, 6, st5));
                let out7 = out1.push_model(
                    u.src@.subrange(e0 as int, e1 as int),
                    u.path@,
                    e0 as int,
                    e1 as int,
                );
                let st7 = DriveState { out: out7, ..st5 };
                assert(eval_from(cu, j, 6, st5) == eval_from(cu, j, 7, st7));
                assert(eval_from(cu, j, 7, st7) == eval_from(cu, j, 8, st7));
                assert(eval_from(cu, j, 8, st7) == Ok::<DriveState, ErrorModel>(st7));
            } else {
                assert(st2.marks.contains(b2) && !st2.marks.contains(b1));
                assert(eval_from(cu, j, 2, st2) == eval_from(cu, j, 3, st2));
                let out4 = out1.push_model(
                    u.src@.subrange(i0 as int, i1 as int),
                    u.path@,
                    i0 as int,
                    i1 as int,
                );
                let st4 = DriveState { out: out4, ..st2 };
                assert(eval_from(cu, j, 3, st2) == eval_from(cu, j, 4, st4));
                assert(eval_from(cu, j, 4, st4) == eval_from(cu, j, 5, st4));
                let st6 = DriveState { skip: true, ..st4 };
                assert(eval_from(cu, j, 5, st4) == eval_from(cu, j, 6, st6));
                assert(eval_from(cu, j, 6, st6) == eval_from(cu, j, 7, st6));
                let st8 = DriveState { skip: false, ..st6 };
                assert(eval_from(cu, j, 7, st6) == eval_from(cu, j, 8, st8));
                assert(eval_from(cu, j, 8, st8) == Ok::<DriveState, ErrorModel>(st8));
            }
        },
        _ => {
            assert(false);
        },
    }
}

/// Preprocessing is deterministic: two runs over the same compilation
/// unit and predefined names denote one buffer, so their texts are
/// byte-equal and their origin lookups agree at every position.
pub proof fn lemma_preprocess_deterministic(
    cu: CompilationUnit,
    defines: Set<Seq<u8>>,
    g1: TextModel,
    g2: TextModel,
    pos: int,
    r1: Option<(Seq<u8>, int)>,
    r2: Option<(Seq<u8>, int)>,
)
    requires
        eval_unit(cu, cu.root as int, defines) == Ok::<TextModel, ErrorModel>(g1),
        eval_unit(cu, cu.root as int, defines) == Ok::<TextModel, ErrorModel>(g2),
        g1.wf(),
        origin_matches(g1, pos, r1),
        origin_matches(g2, pos, r2),
    ensures
        g1.text == g2.text,
        r1 == r2,
{
    assert(g1 == g2);
    lemma_origin_unique(g1, pos, r1, r2);
}

} // verus!
