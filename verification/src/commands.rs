//! What the frontend is handed: the rows of its lists and the outcome
//! of its requests, as plain values.

use vstd::prelude::*;
use crate::terminal::{Terminal, Host, available, available_terminals, key_of, label_of, installed};

verus! {

/// A terminal as the frontend lists it.
pub struct TerminalDto {
    pub key: String,
    pub label: String,
    pub available: bool,
}

/// The terminal list for the frontend: each terminal of
/// `available(host)`, in order, with its key, its label and whether it
/// is installed.
pub fn list_terminals(host: &Host) -> (dtos: Vec<TerminalDto>)
    ensures
        dtos.len() == available_terminals(*host).len(),
        forall|i: int|
            0 <= i < dtos.len() ==> {
                let t = available_terminals(*host)[i];
                &&& (#[trigger] dtos@[i]).key@ == key_of(t)
                &&& dtos@[i].label@ == label_of(t)
                &&& dtos@[i].available == installed(t, *host)
            },
{
    let ts = available(host);
    let mut dtos: Vec<TerminalDto> = Vec::new();
    let mut i: usize = 0;
    while i < ts.len()
        invariant
            i <= ts.len(),
            ts@ == available_terminals(*host),
            dtos.len() == i,
            forall|k: int|
                0 <= k < i ==> {
                    let t = ts@[k];
                    &&& (#[trigger] dtos@[k]).key@ == key_of(t)
                    &&& dtos@[k].label@ == label_of(t)
                    &&& dtos@[k].available == installed(t, *host)
                },
        decreases ts.len() - i,
    {
        let t = ts[i];
        dtos.push(
            TerminalDto {
                key: String::from_str(t.key()),
                label: String::from_str(t.label()),
                available: t.is_installed(host),
            },
        );
        i = i + 1;
    }
    dtos
}

/// A row of the model list: its name, and whether it is a local model.
pub struct ModelRowDto {
    pub name: String,
    pub local: bool,
}

/// A row as its name and its `local` flag.
pub open spec fn row_view(r: ModelRowDto) -> (Seq<char>, bool) {
    (r.name@, r.local)
}

/// The rows as names and flags.
pub open spec fn rows_view(rows: Seq<ModelRowDto>) -> Seq<(Seq<char>, bool)> {
    rows.map_values(|r: ModelRowDto| row_view(r))
}

/// True when one of `rows` is named `name`.
pub open spec fn has_row(rows: Seq<(Seq<char>, bool)>, name: Seq<char>) -> bool {
    exists|i: int| 0 <= i < rows.len() && (#[trigger] rows[i]).0 == name
}

/// `rows` followed by a local row for each of `locals` that no row
/// before it is named after, in order.
pub open spec fn with_local_rows(rows: Seq<(Seq<char>, bool)>, locals: Seq<Seq<char>>) -> Seq<
    (Seq<char>, bool),
>
    decreases locals.len(),
{
    if locals.len() == 0 {
        rows
    } else {
        let prev = with_local_rows(rows, locals.drop_last());
        if has_row(prev, locals.last()) {
            prev
        } else {
            prev.push((locals.last(), true))
        }
    }
}

/// The model list: a row per cloud model, in order, when the cloud
/// catalog is known, then a local row for each local model not listed
/// yet.
pub open spec fn model_rows_of(cloud: Option<Seq<Seq<char>>>, locals: Seq<Seq<char>>) -> Seq<
    (Seq<char>, bool),
> {
    let cloud_rows = match cloud {
        Some(c) => c.map_values(|n: Seq<char>| (n, false)),
        None => Seq::empty(),
    };
    with_local_rows(cloud_rows, locals)
}

/// True when one of `rows` is named `name`.
fn has_row_named(rows: &Vec<ModelRowDto>, name: &String) -> (b: bool)
    ensures
        b == has_row(rows_view(rows@), name@),
{
    let mut i: usize = 0;
    while i < rows.len()
        invariant
            i <= rows.len(),
            forall|k: int| 0 <= k < i ==> (#[trigger] rows@[k]).name@ != name@,
        decreases rows.len() - i,
    {
        if rows[i].name == *name {
            proof {
                assert(rows_view(rows@)[i as int].0 == name@);
            }
            return true;
        }
        i = i + 1;
    }
    proof {
        assert forall|k: int| 0 <= k < rows_view(rows@).len() implies (#[trigger] rows_view(
            rows@,
        )[k]).0 != name@ by {
            assert(rows_view(rows@)[k].0 == rows@[k].name@);
        }
    }
    false
}

/// The model list for the frontend: the cloud models (when the cloud
/// catalog is known), then the local models not listed yet, each
/// flagged local.
pub fn model_rows(cloud: Option<&Vec<String>>, locals: &Vec<String>) -> (rows: Vec<ModelRowDto>)
    ensures
        rows_view(rows@) == model_rows_of(
            match cloud {
                Some(c) => Some(crate::process::views(c@)),
                None => None,
            },
            crate::process::views(locals@),
        ),
{
    let ghost cv = match cloud {
        Some(c) => Some(crate::process::views(c@)),
        None => None,
    };
    let ghost lv = crate::process::views(locals@);
    let mut rows: Vec<ModelRowDto> = Vec::new();
    match cloud {
        Some(c) => {
            let mut i: usize = 0;
            while i < c.len()
                invariant
                    i <= c.len(),
                    rows.len() == i,
                    rows_view(rows@) == crate::process::views(c@).take(i as int).map_values(
                        |n: Seq<char>| (n, false),
                    ),
                decreases c.len() - i,
            {
                let ghost before = rows@;
                rows.push(ModelRowDto { name: c[i].clone(), local: false });
                proof {
                    assert(rows@ =~= before.push(rows@[i as int]));
                    assert(crate::process::views(c@).take(i + 1) =~= crate::process::views(c@).take(
                        i as int,
                    ).push(c@[i as int]@));
                    assert(rows_view(rows@) =~= rows_view(before).push((c@[i as int]@, false)));
                    assert(rows_view(rows@) =~= crate::process::views(c@).take(i + 1).map_values(
                        |n: Seq<char>| (n, false),
                    ));
                }
                i = i + 1;
            }
            proof {
                assert(crate::process::views(c@).take(c.len() as int) =~= crate::process::views(c@));
            }
        },
        None => {
            proof {
                assert(rows_view(rows@) =~= Seq::<(Seq<char>, bool)>::empty());
            }
        },
    }
    let ghost cloud_rows = rows_view(rows@);
    let mut j: usize = 0;
    proof {
        assert(lv.take(0) =~= Seq::<Seq<char>>::empty());
    }
    while j < locals.len()
        invariant
            j <= locals.len(),
            lv == crate::process::views(locals@),
            rows_view(rows@) == with_local_rows(cloud_rows, lv.take(j as int)),
        decreases locals.len() - j,
    {
        proof {
            assert(lv.take(j + 1).drop_last() =~= lv.take(j as int));
            assert(lv.take(j + 1).last() == locals@[j as int]@);
        }
        if !has_row_named(&rows, &locals[j]) {
            let ghost before = rows@;
            rows.push(ModelRowDto { name: locals[j].clone(), local: true });
            proof {
                assert(rows@ =~= before.push(rows@[before.len() as int]));
                assert(rows_view(rows@) =~= rows_view(before).push((locals@[j as int]@, true)));
            }
        }
        j = j + 1;
    }
    proof {
        assert(lv.take(locals.len() as int) =~= lv);
    }
    rows
}


/// Appending local rows keeps the rows already there, adds only rows
/// named after none before them, and leaves a row for every name.
proof fn lemma_with_local_rows(rows: Seq<(Seq<char>, bool)>, locals: Seq<Seq<char>>)
    ensures
        with_local_rows(rows, locals).len() >= rows.len(),
        forall|i: int| 0 <= i < rows.len() ==> #[trigger] with_local_rows(rows, locals)[i] == rows[i],
        forall|i: int|
            rows.len() <= i < with_local_rows(rows, locals).len() ==> (#[trigger] with_local_rows(
                rows,
                locals,
            )[i]).1 && locals.contains(with_local_rows(rows, locals)[i].0) && forall|k: int|
                0 <= k < i ==> with_local_rows(rows, locals)[k].0 != with_local_rows(rows, locals)[i].0,
        forall|n: Seq<char>|
            #[trigger] has_row(with_local_rows(rows, locals), n) <==> (has_row(rows, n)
                || locals.contains(n)),
    decreases locals.len(),
{
    if locals.len() > 0 {
        let init = locals.drop_last();
        lemma_with_local_rows(rows, init);
        let prev = with_local_rows(rows, init);
        let last = locals.last();
        assert forall|n: Seq<char>| init.contains(n) implies locals.contains(n) by {
            let w = choose|w: int| 0 <= w < init.len() && init[w] == n;
            assert(locals[w] == n);
        }
        assert(locals.contains(last)) by {
            assert(locals[locals.len() - 1] == last);
        }
        assert forall|n: Seq<char>| locals.contains(n) implies init.contains(n) || n == last by {
            let w = choose|w: int| 0 <= w < locals.len() && locals[w] == n;
            if w < locals.len() - 1 {
                assert(init[w] == n);
            }
        }
        if !has_row(prev, last) {
            let next = prev.push((last, true));
            assert forall|n: Seq<char>| #[trigger] has_row(next, n) <==> (has_row(prev, n) || n == last) by {
                if has_row(prev, n) {
                    let w = choose|w: int| 0 <= w < prev.len() && (#[trigger] prev[w]).0 == n;
                    assert(next[w].0 == n);
                }
                if n == last {
                    assert(next[prev.len() as int].0 == n);
                }
                if has_row(next, n) {
                    let w = choose|w: int| 0 <= w < next.len() && (#[trigger] next[w]).0 == n;
                    if w < prev.len() {
                        assert(prev[w].0 == n);
                    }
                }
            }
            assert forall|k: int| 0 <= k < prev.len() implies next[k].0 != last by {
                if next[k].0 == last {
                    assert(prev[k].0 == last);
                }
            }
        }
    }
}

/// The model list has a row for every cloud model and every local
/// model and for nothing else; the cloud rows come first, in the
/// catalog's order and not flagged local; every other row is a local
/// model, flagged local, and named after no row before it.
pub proof fn lemma_model_rows(cloud: Option<Seq<Seq<char>>>, locals: Seq<Seq<char>>)
    ensures
        ({
            let rows = model_rows_of(cloud, locals);
            let c = match cloud {
                Some(c) => c,
                None => Seq::empty(),
            };
            &&& forall|n: Seq<char>| #[trigger] has_row(rows, n) <==> (c.contains(n) || locals.contains(n))
            &&& rows.len() >= c.len()
            &&& forall|i: int| 0 <= i < c.len() ==> #[trigger] rows[i] == (c[i], false)
            &&& forall|i: int|
                c.len() <= i < rows.len() ==> (#[trigger] rows[i]).1 && locals.contains(rows[i].0)
                    && forall|k: int| 0 <= k < i ==> rows[k].0 != rows[i].0
        }),
{
    let c = match cloud {
        Some(c) => c,
        None => Seq::empty(),
    };
    let cloud_rows = c.map_values(|n: Seq<char>| (n, false));
    assert(cloud_rows =~= match cloud {
        Some(c) => c.map_values(|n: Seq<char>| (n, false)),
        None => Seq::<(Seq<char>, bool)>::empty(),
    });
    lemma_with_local_rows(cloud_rows, locals);
    assert forall|n: Seq<char>| has_row(cloud_rows, n) <==> c.contains(n) by {
        if has_row(cloud_rows, n) {
            let w = choose|w: int| 0 <= w < cloud_rows.len() && (#[trigger] cloud_rows[w]).0 == n;
            assert(c[w] == n);
        }
        if c.contains(n) {
            let w = choose|w: int| 0 <= w < c.len() && c[w] == n;
            assert(cloud_rows[w].0 == n);
        }
    }
}


/// The state snapshot handed to the frontend: the model's own snapshot,
/// the model list, and for each agent whether it can be restored.
pub struct SnapshotDto<S> {
    pub snapshot: S,
    pub models: Vec<ModelRowDto>,
    pub restorable: Vec<bool>,
}

impl<S> SnapshotDto<S> {
    /// The snapshot for the frontend. `cloud_models` is the cloud
    /// catalog and `restorable` the per-agent restore state, both known
    /// only once the world has been read; without them the model list
    /// holds the local models alone and `restorable` is empty.
    pub fn new(
        snapshot: S,
        cloud_models: Option<&Vec<String>>,
        local_models: &Vec<String>,
        restorable: Option<Vec<bool>>,
    ) -> (dto: SnapshotDto<S>)
        ensures
            dto.snapshot == snapshot,
            rows_view(dto.models@) == model_rows_of(
                match cloud_models {
                    Some(c) => Some(crate::process::views(c@)),
                    None => None,
                },
                crate::process::views(local_models@),
            ),
            dto.restorable@ == match restorable {
                Some(r) => r@,
                None => Seq::empty(),
            },
    {
        let models = model_rows(cloud_models, local_models);
        let restorable = match restorable {
            Some(r) => r,
            None => Vec::new(),
        };
        SnapshotDto { snapshot, models, restorable }
    }
}

/// What a launch or restore request answers the frontend.
pub struct LaunchResult {
    pub ok: bool,
    pub message: String,
}

/// The answer to a finished request: success with `done`, or failure
/// with the error's text after a cross.
pub open spec fn result_of(outcome: Result<(), String>, done: Seq<char>, result: LaunchResult) -> bool {
    match outcome {
        Ok(()) => result.ok && result.message@ == done,
        Err(e) => !result.ok && result.message@ == "\u{2717} "@ + e@,
    }
}

/// The answer to a launch request, given how the launch went (the
/// error as its text).
pub fn launch_result(outcome: Result<(), String>) -> (result: LaunchResult)
    ensures
        result_of(outcome, "\u{2713} launched"@, result),
{
    match outcome {
        Ok(()) => LaunchResult { ok: true, message: String::from_str("\u{2713} launched") },
        Err(e) => LaunchResult { ok: false, message: String::from_str("\u{2717} ").concat(e.as_str()) },
    }
}

/// The answer to a restore request, given how the restore went (the
/// error as its text).
pub fn restore_result(outcome: Result<(), String>) -> (result: LaunchResult)
    ensures
        result_of(outcome, "\u{2713} restored"@, result),
{
    match outcome {
        Ok(()) => LaunchResult { ok: true, message: String::from_str("\u{2713} restored") },
        Err(e) => LaunchResult { ok: false, message: String::from_str("\u{2717} ").concat(e.as_str()) },
    }
}

/// The terminal a launch request names: by its key, or `Default` when
/// it names none.
pub fn requested_terminal(key: Option<&str>) -> (t: Terminal)
    ensures
        t == crate::terminal::terminal_of_key(
            match key {
                Some(k) => k@,
                None => ""@,
            },
        ),
{
    match key {
        Some(k) => Terminal::from_key(k),
        None => Terminal::from_key(""),
    }
}

} // verus!
