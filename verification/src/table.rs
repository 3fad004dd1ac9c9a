//! Route tables: the declared routes, compiled in the order of their
//! declaration and checked for routes that no request could tell apart.
use vstd::prelude::*;
use crate::extract::{Binding, BindingModel};
use crate::pattern::{render, same_shape, spec_compile, CompileError, PathPattern, SegmentModel};
use crate::request::Verb;
use crate::response::ReturnShape;

verus! {

/// A route as it is declared: the template is still text.
#[derive(Clone, Debug, PartialEq, Eq)]
pub struct RouteDescriptor {
    pub verb: Verb,
    pub template: String,
    /// The handler, by the number under which the application keeps it.
    pub handler: usize,
    pub bindings: Vec<Binding>,
    pub returns: ReturnShape,
}

/// The mathematical form of a [`RouteDescriptor`].
pub struct RouteDescriptorModel {
    pub verb: Verb,
    pub template: Seq<char>,
    pub handler: usize,
    pub bindings: Seq<BindingModel>,
    pub returns: ReturnShape,
}

impl View for RouteDescriptor {
    type V = RouteDescriptorModel;

    open spec fn view(&self) -> RouteDescriptorModel {
        RouteDescriptorModel {
            verb: self.verb,
            template: self.template@,
            handler: self.handler,
            bindings: self.bindings.deep_view(),
            returns: self.returns,
        }
    }
}

impl DeepView for RouteDescriptor {
    type V = RouteDescriptorModel;

    open spec fn deep_view(&self) -> RouteDescriptorModel {
        self@
    }
}

/// A route of a table: its template is compiled.
#[derive(Debug, PartialEq, Eq)]
pub struct RouteEntry {
    pub verb: Verb,
    pub pattern: PathPattern,
    /// The handler, by the number under which the application keeps it.
    pub handler: usize,
    pub bindings: Vec<Binding>,
    pub returns: ReturnShape,
}

/// The mathematical form of a [`RouteEntry`].
pub struct RouteEntryModel {
    pub verb: Verb,
    pub pattern: Seq<SegmentModel>,
    pub handler: usize,
    pub bindings: Seq<BindingModel>,
    pub returns: ReturnShape,
}

impl View for RouteEntry {
    type V = RouteEntryModel;

    open spec fn view(&self) -> RouteEntryModel {
        RouteEntryModel {
            verb: self.verb,
            pattern: self.pattern@,
            handler: self.handler,
            bindings: self.bindings.deep_view(),
            returns: self.returns,
        }
    }
}

impl DeepView for RouteEntry {
    type V = RouteEntryModel;

    open spec fn deep_view(&self) -> RouteEntryModel {
        self@
    }
}

/// Why a table could not be built.
#[derive(Clone, Debug, PartialEq, Eq)]
pub enum BuildError {
    /// The template at `index` of what was handed in does not compile.
    InvalidTemplate { index: usize, error: CompileError },
    /// Two routes have the same verb and templates that differ at most in
    /// the names of their captures. `first` was declared before `second`.
    AmbiguousRoute { first: String, second: String },
}

/// The mathematical form of a [`BuildError`].
pub enum BuildErrorModel {
    InvalidTemplate { index: int, error: CompileError },
    AmbiguousRoute { first: Seq<char>, second: Seq<char> },
}

impl View for BuildError {
    type V = BuildErrorModel;

    open spec fn view(&self) -> BuildErrorModel {
        match self {
            BuildError::InvalidTemplate { index, error } => BuildErrorModel::InvalidTemplate {
                index: *index as int,
                error: *error,
            },
            BuildError::AmbiguousRoute { first, second } => BuildErrorModel::AmbiguousRoute {
                first: first@,
                second: second@,
            },
        }
    }
}

/// Whether no request could tell the two routes apart: the same verb, and
/// templates of the same shape.
pub open spec fn conflicts(a: RouteEntryModel, b: RouteEntryModel) -> bool {
    a.verb == b.verb && same_shape(a.pattern, b.pattern)
}

/// Whether no two routes conflict.
pub open spec fn conflict_free(entries: Seq<RouteEntryModel>) -> bool {
    forall|i: int, j: int| 0 <= i < j < entries.len() ==> !conflicts(entries[i], entries[j])
}

/// The first route at or after `from` and before `j` that conflicts with route `j`.
pub open spec fn earlier_conflict(entries: Seq<RouteEntryModel>, j: int, from: int) -> Option<int>
    decreases j - from,
{
    if from < 0 || from >= j {
        None
    } else if conflicts(entries[from], entries[j]) {
        Some(from)
    } else {
        earlier_conflict(entries, j, from + 1)
    }
}

/// The first route at or after `from` that conflicts with a route declared
/// before it, together with the first such route.
pub open spec fn first_conflict(entries: Seq<RouteEntryModel>, from: int) -> Option<(int, int)>
    decreases entries.len() - from,
{
    if from < 0 || from >= entries.len() {
        None
    } else {
        match earlier_conflict(entries, from, 0) {
            Some(i) => Some((i, from)),
            None => first_conflict(entries, from + 1),
        }
    }
}

/// What checking routes for conflicts gives: the routes as they are, or the
/// templates of the first two that conflict.
pub open spec fn spec_check(entries: Seq<RouteEntryModel>) -> Result<
    Seq<RouteEntryModel>,
    BuildErrorModel,
> {
    match first_conflict(entries, 0) {
        Some((i, j)) => Err(
            BuildErrorModel::AmbiguousRoute {
                first: render(entries[i].pattern),
                second: render(entries[j].pattern),
            },
        ),
        None => Ok(entries),
    }
}

/// The first declared route at or after `from` whose template does not
/// compile, with the fault of its template.
pub open spec fn first_invalid(descriptors: Seq<RouteDescriptorModel>, from: int) -> Option<
    (int, CompileError),
>
    decreases descriptors.len() - from,
{
    if from < 0 || from >= descriptors.len() {
        None
    } else {
        match spec_compile(descriptors[from].template) {
            Err(error) => Some((from, error)),
            Ok(_) => first_invalid(descriptors, from + 1),
        }
    }
}

/// A declared route with its template compiled.
pub open spec fn compiled(descriptor: RouteDescriptorModel) -> RouteEntryModel {
    RouteEntryModel {
        verb: descriptor.verb,
        pattern: spec_compile(descriptor.template)->Ok_0,
        handler: descriptor.handler,
        bindings: descriptor.bindings,
        returns: descriptor.returns,
    }
}

/// What building a table gives. The templates are compiled in the order of
/// declaration, and the first that does not compile ends the build. Then the
/// routes are checked for conflicts, and the first conflict ends the build.
/// Otherwise the table holds the routes in the order of declaration.
pub open spec fn spec_build(descriptors: Seq<RouteDescriptorModel>) -> Result<
    Seq<RouteEntryModel>,
    BuildErrorModel,
> {
    match first_invalid(descriptors, 0) {
        Some((index, error)) => Err(BuildErrorModel::InvalidTemplate { index, error }),
        None => spec_check(
            Seq::new(descriptors.len(), |i: int| compiled(descriptors[i])),
        ),
    }
}

/// Where no earlier conflict is found from `from` on, no route from there up
/// to `j` conflicts with route `j`.
pub proof fn lemma_no_earlier_conflict(entries: Seq<RouteEntryModel>, j: int, from: int)
    requires
        0 <= from,
        earlier_conflict(entries, j, from) is None,
    ensures
        forall|i: int| from <= i < j ==> !conflicts(entries[i], entries[j]),
    decreases j - from,
{
    if from < j {
        lemma_no_earlier_conflict(entries, j, from + 1);
    }
}

/// Where no first conflict is found from `from` on, no route from there on
/// conflicts with a route declared before it.
pub proof fn lemma_no_conflict(entries: Seq<RouteEntryModel>, from: int)
    requires
        0 <= from,
        first_conflict(entries, from) is None,
    ensures
        forall|i: int, j: int|
            0 <= i < j < entries.len() && from <= j ==> !conflicts(entries[i], entries[j]),
    decreases entries.len() - from,
{
    if from < entries.len() {
        lemma_no_earlier_conflict(entries, from, 0);
        lemma_no_conflict(entries, from + 1);
    }
}

/// Where no route conflicts with a route before it, no earlier conflict is found.
pub proof fn lemma_earlier_conflict_none(entries: Seq<RouteEntryModel>, j: int, from: int)
    requires
        0 <= from,
        forall|i: int| from <= i < j ==> !conflicts(entries[i], entries[j]),
    ensures
        earlier_conflict(entries, j, from) is None,
    decreases j - from,
{
    if from < j {
        lemma_earlier_conflict_none(entries, j, from + 1);
    }
}

/// Where no two routes conflict, no first conflict is found.
pub proof fn lemma_first_conflict_none(entries: Seq<RouteEntryModel>, from: int)
    requires
        0 <= from,
        conflict_free(entries),
    ensures
        first_conflict(entries, from) is None,
    decreases entries.len() - from,
{
    if from < entries.len() {
        lemma_earlier_conflict_none(entries, from, 0);
        lemma_first_conflict_none(entries, from + 1);
    }
}

/// Routes pass the check exactly when no two of them conflict, and they
/// pass it unchanged.
pub proof fn lemma_check_passes(entries: Seq<RouteEntryModel>)
    ensures
        spec_check(entries) is Ok <==> conflict_free(entries),
        spec_check(entries) is Ok ==> spec_check(entries)->Ok_0 == entries,
{
    if conflict_free(entries) {
        lemma_first_conflict_none(entries, 0);
    }
    if first_conflict(entries, 0) is None {
        lemma_no_conflict(entries, 0);
    }
}

/// A copy of the bindings.
pub fn copy_bindings(bindings: &Vec<Binding>) -> (out: Vec<Binding>)
    ensures
        out.deep_view() == bindings.deep_view(),
{
    let mut out: Vec<Binding> = Vec::new();
    let mut i: usize = 0;
    while i < bindings.len()
        invariant
            i <= bindings.len(),
            out.deep_view() == bindings.deep_view().take(i as int),
        decreases bindings.len() - i,
    {
        let ghost before = out.deep_view();
        let binding = &bindings[i];
        out.push(
            Binding {
                source: binding.source,
                name: binding.name.clone(),
                kind: binding.kind,
                required: binding.required,
            },
        );
        assert(out.deep_view() == before.push(bindings[i as int]@));
        assert(bindings.deep_view().take(i + 1) == bindings.deep_view().take(i as int).push(
            bindings[i as int]@,
        ));
        i = i + 1;
    }
    assert(bindings.deep_view().take(i as int) == bindings.deep_view());
    out
}

/// The routes of one mount point, in the order of their declaration.
#[derive(Debug)]
pub struct RouteTable {
    entries: Vec<RouteEntry>,
}

impl View for RouteTable {
    type V = Seq<RouteEntryModel>;

    closed spec fn view(&self) -> Seq<RouteEntryModel> {
        self.entries.deep_view()
    }
}

impl DeepView for RouteTable {
    type V = Seq<RouteEntryModel>;

    open spec fn deep_view(&self) -> Seq<RouteEntryModel> {
        self@
    }
}

impl RouteTable {
    /// No table that exists at run time holds two routes that conflict.
    #[verifier::type_invariant]
    pub open spec fn wf(&self) -> bool {
        conflict_free(self@)
    }

    /// A table of routes that are known not to conflict.
    pub(crate) fn assemble(entries: Vec<RouteEntry>) -> (table: RouteTable)
        requires
            conflict_free(entries.deep_view()),
        ensures
            table@ == entries.deep_view(),
    {
        RouteTable { entries }
    }

    /// Checks the routes for conflicts and makes a table of them.
    pub fn from_entries(entries: Vec<RouteEntry>) -> (result: Result<RouteTable, BuildError>)
        ensures
            result matches Ok(table) ==> spec_check(entries.deep_view()) == Ok::<
                Seq<RouteEntryModel>,
                BuildErrorModel,
            >(table@),
            result matches Err(error) ==> spec_check(entries.deep_view()) == Err::<
                Seq<RouteEntryModel>,
                BuildErrorModel,
            >(error@),
    {
        let ghost routes = entries.deep_view();
        let mut j: usize = 0;
        while j < entries.len()
            invariant
                j <= entries.len(),
                routes == entries.deep_view(),
                first_conflict(routes, 0) == first_conflict(routes, j as int),
            decreases entries.len() - j,
        {
            let mut i: usize = 0;
            while i < j
                invariant
                    i <= j < entries.len(),
                    routes == entries.deep_view(),
                    first_conflict(routes, 0) == first_conflict(routes, j as int),
                    earlier_conflict(routes, j as int, 0) == earlier_conflict(
                        routes,
                        j as int,
                        i as int,
                    ),
                decreases j - i,
            {
                proof {
                    assert(routes[i as int] == entries[i as int]@);
                    assert(routes[j as int] == entries[j as int]@);
                }
                if entries[i].verb == entries[j].verb && entries[i].pattern.same_shape(
                    &entries[j].pattern,
                ) {
                    return Err(
                        BuildError::AmbiguousRoute {
                            first: entries[i].pattern.template(),
                            second: entries[j].pattern.template(),
                        },
                    );
                }
                i = i + 1;
            }
            j = j + 1;
        }
        proof {
            lemma_no_conflict(routes, 0);
        }
        Ok(RouteTable { entries })
    }

    /// Builds a table from the declared routes.
    pub fn build(descriptors: &Vec<RouteDescriptor>) -> (result: Result<RouteTable, BuildError>)
        ensures
            result matches Ok(table) ==> spec_build(descriptors.deep_view()) == Ok::<
                Seq<RouteEntryModel>,
                BuildErrorModel,
            >(table@),
            result matches Err(error) ==> spec_build(descriptors.deep_view()) == Err::<
                Seq<RouteEntryModel>,
                BuildErrorModel,
            >(error@),
    {
        let ghost declared = descriptors.deep_view();
        let mut entries: Vec<RouteEntry> = Vec::new();
        let mut i: usize = 0;
        while i < descriptors.len()
            invariant
                i <= descriptors.len(),
                declared == descriptors.deep_view(),
                first_invalid(declared, 0) == first_invalid(declared, i as int),
                entries.len() == i,
                forall|k: int|
                    0 <= k < i ==> spec_compile(declared[k].template) is Ok
                        && #[trigger] entries.deep_view()[k] == compiled(declared[k]),
            decreases descriptors.len() - i,
        {
            let descriptor = &descriptors[i];
            assert(declared[i as int] == descriptor@);
            let pattern = match PathPattern::compile(descriptor.template.as_str()) {
                Ok(pattern) => pattern,
                Err(error) => {
                    return Err(BuildError::InvalidTemplate { index: i, error });
                },
            };
            let ghost before = entries.deep_view();
            let entry = RouteEntry {
                verb: descriptor.verb,
                pattern,
                handler: descriptor.handler,
                bindings: copy_bindings(&descriptor.bindings),
                returns: descriptor.returns,
            };
            let ghost model = entry@;
            entries.push(entry);
            assert(entries.deep_view() == before.push(model));
            i = i + 1;
        }
        assert(entries.deep_view() == Seq::new(declared.len(), |k: int| compiled(declared[k])));
        RouteTable::from_entries(entries)
    }

    /// The number of routes.
    pub fn len(&self) -> (n: usize)
        ensures
            n == self@.len(),
    {
        self.entries.len()
    }

    /// The routes in the order of their declaration.
    pub fn entries(&self) -> (entries: &Vec<RouteEntry>)
        ensures
            entries.deep_view() == self@,
            self.wf(),
    {
        proof {
            use_type_invariant(self);
        }
        &self.entries
    }

    /// Gives up the table for its routes.
    pub fn into_entries(self) -> (entries: Vec<RouteEntry>)
        ensures
            entries.deep_view() == self@,
            self.wf(),
    {
        proof {
            use_type_invariant(&self);
        }
        self.entries
    }
}

} // verus!
