//! What the desktop front end does with the paths it is launched with.
use vstd::prelude::*;
use crate::archive::format::{detect_for_read, read_format};

verus! {

/// What the file system says about one launch argument.
#[derive(Debug)]
pub struct PathProbe {
    /// The path exists.
    pub exists: bool,
    /// The path is a regular file.
    pub is_file: bool,
    /// The first bytes of the file (one read of up to six), or none when it
    /// cannot be opened.
    pub head: Option<Vec<u8>>,
}

/// What to do with the paths the app was launched with.
#[derive(Debug)]
pub enum Launch {
    Open(String),
    Stage(Vec<String>),
    Empty,
}

/// The indices of the arguments after the program name that exist
/// (`probes[i]` describes `args[i]`; an argument without a probe does not
/// count as existing).
pub open spec fn existing_indices(args: Seq<String>, probes: Seq<PathProbe>, upto: int) -> Seq<int>
    decreases upto,
{
    if upto <= 1 {
        seq![]
    } else {
        let i = upto - 1;
        existing_indices(args, probes, i) + (if i < probes.len() && probes[i].exists {
            seq![i]
        } else {
            Seq::<int>::empty()
        })
    }
}

/// Whether argument `i` is a file whose contents or name identify an archive.
pub open spec fn opens_as_archive(args: Seq<String>, probes: Seq<PathProbe>, i: int) -> bool {
    &&& probes[i].is_file
    &&& probes[i].head matches Some(h) && read_format(args[i]@, h@) is Some
}

/// A single existing, recognizable archive -> open it; one or more other
/// existing paths -> stage them for a new archive; nothing usable -> empty.
pub fn launch_intent(args: &[String], probes: &[PathProbe]) -> (r: Launch)
    ensures
        ({
            let ex = existing_indices(args@, probes@, args@.len() as int);
            match r {
                Launch::Empty => ex.len() == 0,
                Launch::Open(p) => ex.len() == 1 && opens_as_archive(args@, probes@, ex[0]) && p@
                    == args@[ex[0]]@,
                Launch::Stage(v) => {
                    &&& ex.len() > 0
                    &&& !(ex.len() == 1 && opens_as_archive(args@, probes@, ex[0]))
                    &&& v@.len() == ex.len()
                    &&& forall|k: int| 0 <= k < ex.len() ==> #[trigger] v@[k]@ == args@[ex[k]]@
                },
            }
        }),
{
    let n = args.len();
    let mut existing: Vec<usize> = Vec::new();
    let mut i: usize = 1;
    while i < n
        invariant
            n == args@.len(),
            1 <= i || n == 0,
            i <= n || n == 0,
            existing@.map_values(|k: usize| k as int) == existing_indices(
                args@,
                probes@,
                i as int,
            ),
            forall|k: int| 0 <= k < existing@.len() ==> 1 <= #[trigger] existing@[k] < i,
            forall|k: int| 0 <= k < existing@.len() ==> #[trigger] existing@[k] < probes@.len(),
        decreases n - i,
    {
        let ghost before = existing@;
        if i < probes.len() && probes[i].exists {
            existing.push(i);
            assert(existing@.map_values(|k: usize| k as int) =~= before.map_values(
                |k: usize| k as int,
            ).push(i as int));
        } else {
            assert(existing@.map_values(|k: usize| k as int) =~= before.map_values(
                |k: usize| k as int,
            ));
        }
        i = i + 1;
    }
    let ghost ex = existing_indices(args@, probes@, args@.len() as int);
    if n <= 1 {
        assert(existing_indices(args@, probes@, args@.len() as int) =~= Seq::<int>::empty());
        return Launch::Empty;
    }
    assert(existing@.map_values(|k: usize| k as int) == ex);
    assert(existing@.len() == ex.len());
    if existing.len() == 0 {
        return Launch::Empty;
    }
    if existing.len() == 1 {
        let k = existing[0];
        assert(ex[0] == k as int);
        let p = &probes[k];
        if p.is_file {
            match &p.head {
                Some(h) => {
                    if detect_for_read(args[k].as_str(), h.as_slice()).is_ok() {
                        return Launch::Open(args[k].clone());
                    }
                },
                None => {},
            }
        }
    }
    let mut staged: Vec<String> = Vec::new();
    let m = existing.len();
    let mut j: usize = 0;
    while j < m
        invariant
            m == existing@.len(),
            j <= m,
            staged@.len() == j,
            existing@.map_values(|k: usize| k as int) == ex,
            forall|k: int| 0 <= k < existing@.len() ==> 1 <= #[trigger] existing@[k] < n,
            n == args@.len(),
            forall|k: int| 0 <= k < j ==> #[trigger] staged@[k]@ == args@[ex[k]]@,
        decreases m - j,
    {
        let k = existing[j];
        assert(ex[j as int] == k as int);
        staged.push(args[k].clone());
        j = j + 1;
    }
    Launch::Stage(staged)
}

} // verus!
