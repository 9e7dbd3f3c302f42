use vstd::prelude::*;

use crate::text::{
    any_shared, lemma_views_concat, lemma_views_push, overlaps, same_text, split_words, views,
    words,
};

verus! {

/// One output of a recipe: where it is placed once built.
pub struct DrvOutput {
    pub path: String,
}

impl DrvOutput {
    pub fn path(&self) -> (r: String)
        ensures
            r@ == self.path@,
    {
        self.path.clone()
    }
}

/// The environment fields of a recipe that the analysis reads.
pub struct DrvEnv {
    pub build_inputs: Option<String>,
    pub check_inputs: Option<String>,
    pub pname: Option<String>,
    pub propagated_build_inputs: Option<String>,
    pub src: Option<String>,
}

/// The whitespace-separated entries of an optional field; none when it is absent.
pub open spec fn field_words(f: Option<String>) -> Seq<Seq<char>> {
    match f {
        Some(s) => words(s@),
        None => Seq::empty(),
    }
}

fn split_field(f: &Option<String>) -> (r: Vec<String>)
    ensures
        views(r@) == field_words(*f),
{
    match f {
        Some(s) => split_words(s.as_str()),
        None => {
            let v: Vec<String> = Vec::new();
            assert(views(v@) =~= Seq::<Seq<char>>::empty());
            v
        },
    }
}

impl DrvEnv {
    pub fn get_build_inputs(&self) -> (r: Vec<String>)
        ensures
            views(r@) == field_words(self.build_inputs),
    {
        split_field(&self.build_inputs)
    }

    pub fn get_check_inputs(&self) -> (r: Vec<String>)
        ensures
            views(r@) == field_words(self.check_inputs),
    {
        split_field(&self.check_inputs)
    }

    pub fn get_propagated_build_inputs(&self) -> (r: Vec<String>)
        ensures
            views(r@) == field_words(self.propagated_build_inputs),
    {
        split_field(&self.propagated_build_inputs)
    }
}

/// A recipe: its id (`drv_path`), its own outputs, the ids of the recipes it
/// depends on, and its environment.
pub struct Derivation {
    pub env: DrvEnv,
    pub outputs: Vec<DrvOutput>,
    pub input_drvs: Vec<String>,
    pub drv_path: String,
}

pub open spec fn output_paths(outs: Seq<DrvOutput>) -> Seq<Seq<char>> {
    outs.map_values(|o: DrvOutput| o.path@)
}

impl Derivation {
    pub open spec fn has_pname(&self, p: Seq<char>) -> bool {
        self.env.pname is Some && self.env.pname->0@ == p
    }

    pub fn matches_pname(&self, pname: &str) -> (r: bool)
        ensures
            r == self.has_pname(pname@),
    {
        match &self.env.pname {
            Some(p) => same_text(p.as_str(), pname),
            None => false,
        }
    }

    pub fn get_input_drv_paths(&self) -> (r: Vec<String>)
        ensures
            views(r@) == views(self.input_drvs@),
    {
        let mut r: Vec<String> = Vec::new();
        let mut i: usize = 0;
        while i < self.input_drvs.len()
            invariant
                i <= self.input_drvs.len(),
                views(r@) == views(self.input_drvs@.subrange(0, i as int)),
            decreases self.input_drvs.len() - i,
        {
            proof {
                lemma_views_push(r@, self.input_drvs[i as int]);
                assert(self.input_drvs@.subrange(0, i + 1) =~= self.input_drvs@.subrange(
                    0,
                    i as int,
                ).push(self.input_drvs[i as int]));
            }
            r.push(self.input_drvs[i].clone());
            i = i + 1;
        }
        assert(self.input_drvs@.subrange(0, i as int) =~= self.input_drvs@);
        r
    }
}

/// The recipes described so far, keyed by id.
pub struct DrvGraph {
    pub drvs: Vec<Derivation>,
}

impl DrvGraph {
    /// No two recipes share an id.
    pub open spec fn wf(&self) -> bool {
        forall|i: int, j: int|
            0 <= i < j < self.drvs@.len() ==> self.drvs@[i].drv_path@ != self.drvs@[j].drv_path@
    }

    pub open spec fn has(&self, id: Seq<char>) -> bool {
        exists|i: int| 0 <= i < self.drvs@.len() && self.drvs@[i].drv_path@ == id
    }

    pub open spec fn index_of(&self, id: Seq<char>) -> int {
        choose|i: int| 0 <= i < self.drvs@.len() && self.drvs@[i].drv_path@ == id
    }

    /// The recipe with id `id`, when it has been described.
    pub open spec fn node(&self, id: Seq<char>) -> Derivation {
        self.drvs@[self.index_of(id)]
    }

    pub fn new() -> (g: DrvGraph)
        ensures
            g.wf(),
            g.drvs@.len() == 0,
    {
        DrvGraph { drvs: Vec::new() }
    }

    /// The position of the recipe with id `id`.
    pub fn find(&self, id: &str) -> (r: Option<usize>)
        requires
            self.wf(),
        ensures
            r is Some <==> self.has(id@),
            r is Some ==> r->0 == self.index_of(id@) && r->0 < self.drvs@.len(),
    {
        let target = id.to_owned();
        let mut i: usize = 0;
        while i < self.drvs.len()
            invariant
                self.wf(),
                i <= self.drvs.len(),
                target@ == id@,
                forall|k: int| 0 <= k < i ==> self.drvs@[k].drv_path@ != id@,
            decreases self.drvs.len() - i,
        {
            if self.drvs[i].drv_path == target {
                proof {
                    assert(self.drvs@[i as int].drv_path@ == id@);
                    assert(self.has(id@));
                    let j = self.index_of(id@);
                    assert(self.drvs@[j].drv_path@ == id@);
                    if j > i as int {
                        assert(self.drvs@[i as int].drv_path@ != self.drvs@[j].drv_path@);
                    }
                }
                return Some(i);
            }
            i = i + 1;
        }
        None
    }

    /// Adds a described recipe; one whose id is already present is left out.
    pub fn insert(&mut self, d: Derivation) -> (added: bool)
        requires
            old(self).wf(),
        ensures
            final(self).wf(),
            added == !old(self).has(d.drv_path@),
            added ==> final(self).drvs@ == old(self).drvs@.push(d),
            !added ==> final(self).drvs@ == old(self).drvs@,
    {
        match self.find(d.drv_path.as_str()) {
            Some(_) => false,
            None => {
                self.drvs.push(d);
                true
            },
        }
    }
}

/// The outputs of `d` together with those of the recipes among its inputs
/// that carry the same package name, followed `fuel` levels deep.
pub open spec fn out_paths(g: DrvGraph, d: Derivation, fuel: nat) -> Seq<Seq<char>>
    decreases fuel, 0nat,
{
    output_paths(d.outputs@) + match d.env.pname {
        Some(p) => if fuel > 0 {
            sibling_out_paths(g, d.input_drvs@, p@, (fuel - 1) as nat)
        } else {
            Seq::empty()
        },
        None => Seq::empty(),
    }
}

/// The outputs of those recipes among `ids` whose package name is `p`.
pub open spec fn sibling_out_paths(g: DrvGraph, ids: Seq<String>, p: Seq<char>, fuel: nat) -> Seq<
    Seq<char>,
>
    decreases fuel, ids.len(),
{
    if ids.len() == 0 {
        Seq::empty()
    } else {
        let id = ids.last()@;
        sibling_out_paths(g, ids.drop_last(), p, fuel) + if g.has(id) && g.node(id).has_pname(p) {
            out_paths(g, g.node(id), fuel)
        } else {
            Seq::empty()
        }
    }
}

/// The complete output set of `d`: a path through recipes of one package
/// visits each recipe at most once, so the number of recipes bounds the depth.
pub open spec fn all_out_paths(g: DrvGraph, d: Derivation) -> Seq<Seq<char>> {
    out_paths(g, d, g.drvs@.len())
}

fn collect_out_paths(g: &DrvGraph, d: &Derivation, fuel: usize, acc: &mut Vec<String>)
    requires
        g.wf(),
    ensures
        views(final(acc)@) == views(old(acc)@) + out_paths(*g, *d, fuel as nat),
    decreases fuel,
{
    let ghost start = views(acc@);
    let mut i: usize = 0;
    while i < d.outputs.len()
        invariant
            g.wf(),
            i <= d.outputs.len(),
            views(acc@) == start + output_paths(d.outputs@.subrange(0, i as int)),
        decreases d.outputs.len() - i,
    {
        proof {
            lemma_views_push(acc@, d.outputs[i as int].path);
            assert(output_paths(d.outputs@.subrange(0, i + 1)) =~= output_paths(
                d.outputs@.subrange(0, i as int),
            ).push(d.outputs[i as int].path@));
        }
        acc.push(d.outputs[i].path());
        i = i + 1;
    }
    assert(d.outputs@.subrange(0, i as int) =~= d.outputs@);
    let ghost own = views(acc@);
    match &d.env.pname {
        Some(p) => {
            if fuel > 0 {
                let ghost f = (fuel - 1) as nat;
                let mut k: usize = 0;
                while k < d.input_drvs.len()
                    invariant
                        g.wf(),
                        fuel > 0,
                        f == fuel - 1,
                        d.env.pname == Some(*p),
                        k <= d.input_drvs.len(),
                        views(acc@) == own + sibling_out_paths(
                            *g,
                            d.input_drvs@.subrange(0, k as int),
                            p@,
                            f,
                        ),
                    decreases d.input_drvs.len() - k,
                {
                    let ghost ids = d.input_drvs@.subrange(0, k + 1);
                    assert(ids.drop_last() =~= d.input_drvs@.subrange(0, k as int));
                    assert(ids.last() == d.input_drvs@[k as int]);
                    let ghost before = views(acc@);
                    match g.find(d.input_drvs[k].as_str()) {
                        Some(j) => {
                            if g.drvs[j].matches_pname(p.as_str()) {
                                collect_out_paths(g, &g.drvs[j], fuel - 1, acc);
                            } else {
                                assert(before + Seq::<Seq<char>>::empty() =~= before);
                            }
                        },
                        None => {
                            assert(before + Seq::<Seq<char>>::empty() =~= before);
                        },
                    }
                    assert(views(acc@) =~= own + sibling_out_paths(*g, ids, p@, f));
                    k = k + 1;
                }
                assert(d.input_drvs@.subrange(0, k as int) =~= d.input_drvs@);
            } else {
                assert(own + Seq::<Seq<char>>::empty() =~= own);
            }
        },
        None => {
            assert(own + Seq::<Seq<char>>::empty() =~= own);
        },
    }
}

impl Derivation {
    /// All outputs of this recipe, including those of same-named sibling recipes.
    pub fn get_out_paths(&self, graph: &DrvGraph) -> (r: Vec<String>)
        requires
            graph.wf(),
        ensures
            views(r@) == all_out_paths(*graph, *self),
    {
        let mut acc: Vec<String> = Vec::new();
        assert(views(acc@) =~= Seq::<Seq<char>>::empty());
        collect_out_paths(graph, self, graph.drvs.len(), &mut acc);
        assert(Seq::<Seq<char>>::empty() + all_out_paths(*graph, *self) =~= all_out_paths(
            *graph,
            *self,
        ));
        acc
    }
}

/// The recipe ids that `out_paths(g, d, fuel)` looks up, in order.
pub open spec fn consulted(g: DrvGraph, d: Derivation, fuel: nat) -> Seq<Seq<char>>
    decreases fuel, 0nat,
{
    match d.env.pname {
        Some(p) => if fuel > 0 {
            sibling_consulted(g, d.input_drvs@, p@, (fuel - 1) as nat)
        } else {
            Seq::empty()
        },
        None => Seq::empty(),
    }
}

/// The recipe ids that `sibling_out_paths(g, ids, p, fuel)` looks up, in order.
pub open spec fn sibling_consulted(g: DrvGraph, ids: Seq<String>, p: Seq<char>, fuel: nat) -> Seq<
    Seq<char>,
>
    decreases fuel, ids.len(),
{
    if ids.len() == 0 {
        Seq::empty()
    } else {
        let id = ids.last()@;
        sibling_consulted(g, ids.drop_last(), p, fuel) + seq![id] + if g.has(id) && g.node(
            id,
        ).has_pname(p) {
            consulted(g, g.node(id), fuel)
        } else {
            Seq::empty()
        }
    }
}

/// The ids that classifying `root` looks up: its inputs, then, for each
/// described input, those that resolving its outputs looks up.
pub open spec fn root_consulted(g: DrvGraph, ids: Seq<String>) -> Seq<Seq<char>>
    decreases ids.len(),
{
    if ids.len() == 0 {
        Seq::empty()
    } else {
        let id = ids.last()@;
        root_consulted(g, ids.drop_last()) + seq![id] + if g.has(id) {
            consulted(g, g.node(id), g.drvs@.len())
        } else {
            Seq::empty()
        }
    }
}

/// Those of `ids` that name no described recipe, in order.
pub open spec fn undescribed(g: DrvGraph, ids: Seq<Seq<char>>) -> Seq<Seq<char>>
    decreases ids.len(),
{
    if ids.len() == 0 {
        Seq::empty()
    } else {
        let r = undescribed(g, ids.drop_last());
        if g.has(ids.last()) {
            r
        } else {
            r.push(ids.last())
        }
    }
}

fn note_undescribed(g: &DrvGraph, id: &String, acc: &mut Vec<String>, seen: Ghost<Seq<Seq<char>>>)
    requires
        g.wf(),
        views(old(acc)@) == undescribed(*g, seen@),
    ensures
        views(final(acc)@) == undescribed(*g, seen@.push(id@)),
{
    assert(seen@.push(id@).drop_last() =~= seen@);
    if g.find(id.as_str()).is_none() {
        proof {
            lemma_views_push(acc@, *id);
        }
        acc.push(id.clone());
    }
}

fn collect_consulted(
    g: &DrvGraph,
    d: &Derivation,
    fuel: usize,
    acc: &mut Vec<String>,
    seen: Ghost<Seq<Seq<char>>>,
)
    requires
        g.wf(),
        views(old(acc)@) == undescribed(*g, seen@),
    ensures
        views(final(acc)@) == undescribed(*g, seen@ + consulted(*g, *d, fuel as nat)),
    decreases fuel,
{
    match &d.env.pname {
        Some(p) => {
            if fuel > 0 {
                let ghost f = (fuel - 1) as nat;
                let mut k: usize = 0;
                while k < d.input_drvs.len()
                    invariant
                        g.wf(),
                        fuel > 0,
                        f == fuel - 1,
                        d.env.pname == Some(*p),
                        k <= d.input_drvs.len(),
                        views(acc@) == undescribed(
                            *g,
                            seen@ + sibling_consulted(
                                *g,
                                d.input_drvs@.subrange(0, k as int),
                                p@,
                                f,
                            ),
                        ),
                    decreases d.input_drvs.len() - k,
                {
                    let ghost ids = d.input_drvs@.subrange(0, k + 1);
                    assert(ids.drop_last() =~= d.input_drvs@.subrange(0, k as int));
                    assert(ids.last() == d.input_drvs@[k as int]);
                    let ghost before = seen@ + sibling_consulted(
                        *g,
                        d.input_drvs@.subrange(0, k as int),
                        p@,
                        f,
                    );
                    note_undescribed(g, &d.input_drvs[k], acc, Ghost(before));
                    let ghost mid = before.push(d.input_drvs@[k as int]@);
                    match g.find(d.input_drvs[k].as_str()) {
                        Some(j) => {
                            if g.drvs[j].matches_pname(p.as_str()) {
                                collect_consulted(g, &g.drvs[j], fuel - 1, acc, Ghost(mid));
                                assert(mid + consulted(*g, g.drvs@[j as int], f) =~= seen@
                                    + sibling_consulted(*g, ids, p@, f));
                            } else {
                                assert(mid =~= seen@ + sibling_consulted(*g, ids, p@, f));
                            }
                        },
                        None => {
                            assert(mid =~= seen@ + sibling_consulted(*g, ids, p@, f));
                        },
                    }
                    k = k + 1;
                }
                assert(d.input_drvs@.subrange(0, k as int) =~= d.input_drvs@);
            } else {
                assert(seen@ + consulted(*g, *d, fuel as nat) =~= seen@);
            }
        },
        None => {
            assert(seen@ + consulted(*g, *d, fuel as nat) =~= seen@);
        },
    }
}

impl DrvGraph {
    /// The ids that classifying `root` looks up and that no described recipe
    /// carries yet, in the order they are looked up. Once it is empty,
    /// `read_deps` sees every recipe it asks for.
    pub fn to_describe(&self, root: &Derivation) -> (r: Vec<String>)
        requires
            self.wf(),
        ensures
            views(r@) == undescribed(*self, root_consulted(*self, root.input_drvs@)),
    {
        let mut acc: Vec<String> = Vec::new();
        assert(views(acc@) =~= undescribed(*self, Seq::empty()));
        let mut k: usize = 0;
        while k < root.input_drvs.len()
            invariant
                self.wf(),
                k <= root.input_drvs.len(),
                views(acc@) == undescribed(
                    *self,
                    root_consulted(*self, root.input_drvs@.subrange(0, k as int)),
                ),
            decreases root.input_drvs.len() - k,
        {
            let ghost ids = root.input_drvs@.subrange(0, k + 1);
            assert(ids.drop_last() =~= root.input_drvs@.subrange(0, k as int));
            assert(ids.last() == root.input_drvs@[k as int]);
            let ghost before = root_consulted(*self, root.input_drvs@.subrange(0, k as int));
            note_undescribed(self, &root.input_drvs[k], &mut acc, Ghost(before));
            let ghost mid = before.push(root.input_drvs@[k as int]@);
            match self.find(root.input_drvs[k].as_str()) {
                Some(j) => {
                    collect_consulted(self, &self.drvs[j], self.drvs.len(), &mut acc, Ghost(mid));
                    assert(mid + consulted(*self, self.drvs@[j as int], self.drvs@.len() as nat)
                        =~= root_consulted(*self, ids));
                },
                None => {
                    assert(mid =~= root_consulted(*self, ids));
                },
            }
            k = k + 1;
        }
        assert(root.input_drvs@.subrange(0, k as int) =~= root.input_drvs@);
        acc
    }
}

/// A dependency under test: a recipe with its resolved outputs, and what its
/// built outputs were found to provide (filled in once it has been built).
pub struct Candidate {
    pub drv_path: String,
    pub pname: Option<String>,
    pub out_paths: Vec<String>,
    pub provided_headers: Vec<String>,
    pub provided_binaries: Vec<String>,
    pub provided_shared_objects: Vec<String>,
}

pub open spec fn opt_view(o: Option<String>) -> Option<Seq<char>> {
    match o {
        Some(s) => Some(s@),
        None => None,
    }
}

/// `c` stands for recipe `d` of `g`, with nothing found in its outputs yet.
pub open spec fn resolves_to(c: Candidate, g: DrvGraph, d: Derivation) -> bool {
    &&& c.drv_path@ == d.drv_path@
    &&& opt_view(c.pname) == opt_view(d.env.pname)
    &&& views(c.out_paths@) == all_out_paths(g, d)
    &&& c.provided_headers@.len() == 0
    &&& c.provided_binaries@.len() == 0
    &&& c.provided_shared_objects@.len() == 0
}

/// Every id of `ids` names a described recipe.
pub open spec fn all_described(g: DrvGraph, ids: Seq<String>) -> bool {
    forall|i: int| 0 <= i < ids.len() ==> g.has(#[trigger] ids[i]@)
}

pub open spec fn resolved(g: DrvGraph, ids: Seq<String>) -> Seq<Derivation> {
    ids.map_values(|id: String| g.node(id@))
}

/// The propagated inputs declared by the recipes `ds`, in order.
pub open spec fn propagated_of(ds: Seq<Derivation>) -> Seq<Seq<char>>
    decreases ds.len(),
{
    if ds.len() == 0 {
        Seq::empty()
    } else {
        propagated_of(ds.drop_last()) + field_words(ds.last().env.propagated_build_inputs)
    }
}

/// `d` is a direct dependency of `root` listed among its build inputs, not
/// propagated by any direct dependency, and not among its check inputs.
pub open spec fn is_candidate(g: DrvGraph, root: Derivation, d: Derivation) -> bool {
    let outs = all_out_paths(g, d);
    &&& overlaps(outs, field_words(root.env.build_inputs))
    &&& !overlaps(outs, propagated_of(resolved(g, root.input_drvs@)))
    &&& !overlaps(outs, field_words(root.env.check_inputs))
}

/// The candidate set of `root`, in the order of its inputs.
pub open spec fn classified(g: DrvGraph, root: Derivation) -> Seq<Derivation> {
    resolved(g, root.input_drvs@).filter(candidate_pred(g, root))
}

pub open spec fn candidate_pred(g: DrvGraph, root: Derivation) -> spec_fn(Derivation) -> bool {
    |d: Derivation| is_candidate(g, root, d)
}

fn copy_opt(o: &Option<String>) -> (r: Option<String>)
    ensures
        r == *o,
{
    match o {
        Some(s) => Some(s.clone()),
        None => None,
    }
}

impl Candidate {
    /// The candidate standing for `d`.
    pub fn resolve(graph: &DrvGraph, d: &Derivation) -> (c: Candidate)
        requires
            graph.wf(),
        ensures
            resolves_to(c, *graph, *d),
    {
        Candidate {
            drv_path: d.drv_path.clone(),
            pname: copy_opt(&d.env.pname),
            out_paths: d.get_out_paths(graph),
            provided_headers: Vec::new(),
            provided_binaries: Vec::new(),
            provided_shared_objects: Vec::new(),
        }
    }

    /// Holds exactly the recipe ids of `cs`, in order.
    pub open spec fn ids(cs: Seq<Candidate>) -> Seq<Seq<char>> {
        cs.map_values(|c: Candidate| c.drv_path@)
    }
}

impl Derivation {
    /// The candidate set of this recipe: its direct dependencies that appear
    /// among its build inputs, less those that some direct dependency
    /// propagates and those that are check inputs. An input recipe that was
    /// never described makes the analysis of this recipe fail with its id.
    pub fn read_deps(&self, graph: &DrvGraph) -> (r: Result<Vec<Candidate>, String>)
        requires
            graph.wf(),
        ensures
            r is Ok <==> all_described(*graph, self.input_drvs@),
            r is Err ==> views(self.input_drvs@).contains(r->Err_0@) && !graph.has(r->Err_0@),
            r is Ok ==> r->Ok_0@.len() == classified(*graph, *self).len() && forall|i: int|
                0 <= i < r->Ok_0@.len() ==> resolves_to(
                    #[trigger] r->Ok_0@[i],
                    *graph,
                    classified(*graph, *self)[i],
                ),
    {
        let mut idx: Vec<usize> = Vec::new();
        let mut k: usize = 0;
        while k < self.input_drvs.len()
            invariant
                graph.wf(),
                k <= self.input_drvs.len(),
                idx@.len() == k,
                all_described(*graph, self.input_drvs@.subrange(0, k as int)),
                forall|i: int|
                    0 <= i < k ==> #[trigger] idx@[i] == graph.index_of(self.input_drvs@[i]@) && idx@[i]
                        < graph.drvs@.len(),
            decreases self.input_drvs.len() - k,
        {
            match graph.find(self.input_drvs[k].as_str()) {
                Some(j) => {
                    idx.push(j);
                },
                None => {
                    let id = self.input_drvs[k].clone();
                    proof {
                        assert(id@ == self.input_drvs@[k as int]@);
                        assert(!graph.has(id@));
                        assert(views(self.input_drvs@)[k as int] == id@);
                        assert(!graph.has(self.input_drvs@[k as int]@));
                    }
                    return Err(id);
                },
            }
            assert forall|i: int| 0 <= i < k + 1 implies graph.has(
                #[trigger] self.input_drvs@.subrange(0, k + 1)[i]@,
            ) by {
                if i < k {
                    assert(self.input_drvs@.subrange(0, k + 1)[i] == self.input_drvs@.subrange(0, k as int)[i]);
                }
            }
            k = k + 1;
        }
        assert(self.input_drvs@.subrange(0, k as int) =~= self.input_drvs@);
        let ghost all = resolved(*graph, self.input_drvs@);
        let build = self.env.get_build_inputs();
        let check = self.env.get_check_inputs();
        let mut prop: Vec<String> = Vec::new();
        assert(views(prop@) =~= propagated_of(all.subrange(0, 0)));
        k = 0;
        while k < self.input_drvs.len()
            invariant
                graph.wf(),
                k <= self.input_drvs.len(),
                idx@.len() == self.input_drvs@.len(),
                all == resolved(*graph, self.input_drvs@),
                forall|i: int|
                    0 <= i < self.input_drvs@.len() ==> #[trigger] idx@[i] == graph.index_of(self.input_drvs@[i]@)
                        && idx@[i] < graph.drvs@.len(),
                views(prop@) == propagated_of(all.subrange(0, k as int)),
            decreases self.input_drvs.len() - k,
        {
            let d = &graph.drvs[idx[k]];
            let mut more = d.env.get_propagated_build_inputs();
            proof {
                assert(*d == all[k as int]);
                assert(all.subrange(0, k + 1).drop_last() =~= all.subrange(0, k as int));
                lemma_views_concat(prop@, more@);
            }
            prop.append(&mut more);
            k = k + 1;
        }
        assert(all.subrange(0, k as int) =~= all);
        let ghost pred = candidate_pred(*graph, *self);
        let mut out: Vec<Candidate> = Vec::new();
        k = 0;
        while k < self.input_drvs.len()
            invariant
                graph.wf(),
                k <= self.input_drvs.len(),
                idx@.len() == self.input_drvs@.len(),
                all == resolved(*graph, self.input_drvs@),
                forall|i: int|
                    0 <= i < self.input_drvs@.len() ==> #[trigger] idx@[i] == graph.index_of(self.input_drvs@[i]@)
                        && idx@[i] < graph.drvs@.len(),
                views(prop@) == propagated_of(all),
                views(build@) == field_words(self.env.build_inputs),
                views(check@) == field_words(self.env.check_inputs),
                pred == candidate_pred(*graph, *self),
                out@.len() == all.subrange(0, k as int).filter(pred).len(),
                forall|i: int|
                    0 <= i < out@.len() ==> resolves_to(
                        #[trigger] out@[i],
                        *graph,
                        all.subrange(0, k as int).filter(pred)[i],
                    ),
            decreases self.input_drvs.len() - k,
        {
            let d = &graph.drvs[idx[k]];
            let outs = d.get_out_paths(graph);
            let keep = any_shared(&outs, &build) && !any_shared(&outs, &prop) && !any_shared(
                &outs,
                &check,
            );
            proof {
                assert(*d == all[k as int]);
                assert(all.subrange(0, k + 1).drop_last() =~= all.subrange(0, k as int));
                assert(all.subrange(0, k + 1).last() == all[k as int]);
                assert(all[k as int] == graph.node(self.input_drvs@[k as int]@));
                assert(keep == is_candidate(*graph, *self, all[k as int]));
            }
            let ghost s1 = all.subrange(0, k + 1);
            let ghost s0 = all.subrange(0, k as int);
            assert(pred(all[k as int]) == keep);
            proof {
                reveal(Seq::filter);
            }
            if keep {
                let c = Candidate::resolve(graph, d);
                out.push(c);
                assert(s1.filter(pred) == s0.filter(pred).push(all[k as int]));
            } else {
                assert(s1.filter(pred) == s0.filter(pred));
            }
            k = k + 1;
        }
        assert(all.subrange(0, k as int) =~= all);
        Ok(out)
    }
}

} // verus!
