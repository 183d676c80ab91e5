//! The database of well-known packages and classes: which files provide
//! which commands and environments, and what is known about each package.

use crate::analysis::{Link, LinkKind};
use crate::bytes::{bytes_of, bytes_same, copy_range, extend_range};
use crate::project::project_of;
use crate::workspace::{paths_of, Workspace, WorkspaceView};
use itertools::Itertools;
use vstd::prelude::*;
use vstd::string::*;
use vstd::utf8::encode_utf8;

verus! {

/// The database: components, and what is known about packages by name.
#[derive(Debug, PartialEq, Eq, Clone)]
pub struct ComponentDatabase {
    pub components: Vec<Component>,
    pub metadata: Vec<ComponentMetadata>,
}

/// What a set of files provides. The component without file names is the
/// kernel, which every document has.
#[derive(Debug, PartialEq, Eq, Clone)]
pub struct Component {
    pub file_names: Vec<String>,
    pub references: Vec<String>,
    pub commands: Vec<ComponentCommand>,
    pub environments: Vec<String>,
}

/// A command that a component provides, with how it is shown.
#[derive(Debug, PartialEq, Eq, Clone)]
pub struct ComponentCommand {
    pub name: String,
    pub image: Option<String>,
    pub glyph: Option<String>,
    pub parameters: Vec<ComponentParameter>,
}

/// A parameter of a command: the arguments that it may take.
#[derive(Debug, PartialEq, Eq, Clone)]
pub struct ComponentParameter(pub Vec<ComponentArgument>);

/// An argument that a parameter may take, with how it is shown.
#[derive(Debug, PartialEq, Eq, Clone)]
pub struct ComponentArgument {
    pub name: String,
    pub image: Option<String>,
}

/// What is known about a package or a class.
#[derive(Debug, PartialEq, Eq, Clone)]
pub struct ComponentMetadata {
    pub name: String,
    pub caption: Option<String>,
    pub description: Option<String>,
}

/// How a text is marked up.
#[derive(Debug, PartialEq, Eq, Clone, Copy, Structural)]
pub enum MarkupKind {
    PlainText,
    Markdown,
}

/// A text for the editor to show.
#[derive(Debug, PartialEq, Eq, Clone)]
pub struct MarkupContent {
    pub kind: MarkupKind,
    pub value: String,
}

/// File name `k` of a component, as bytes.
pub open spec fn file_name(component: Component, k: int) -> Seq<u8> {
    encode_utf8(component.file_names@[k]@)
}

/// Reference `k` of a component, as bytes.
pub open spec fn reference(component: Component, k: int) -> Seq<u8> {
    encode_utf8(component.references@[k]@)
}

/// Whether a file of this name is among the files of the component.
pub open spec fn provides(component: Component, name: Seq<u8>) -> bool {
    exists|k: int| 0 <= k < component.file_names@.len() && #[trigger] file_name(component, k) == name
}

/// The index of the first component at or after `from` that provides `name`.
pub open spec fn provider_from(components: Seq<Component>, name: Seq<u8>, from: int) -> Option<int>
    decreases components.len() - from,
{
    if from < 0 || from >= components.len() {
        None
    } else if provides(components[from], name) {
        Some(from)
    } else {
        provider_from(components, name, from + 1)
    }
}

/// The index of the first component that provides `name`.
pub open spec fn provider(components: Seq<Component>, name: Seq<u8>) -> Option<int> {
    provider_from(components, name, 0)
}

/// The index of the first component at or after `from` without file names.
pub open spec fn kernel_from(components: Seq<Component>, from: int) -> Option<int>
    decreases components.len() - from,
{
    if from < 0 || from >= components.len() {
        None
    } else if components[from].file_names@.len() == 0 {
        Some(from)
    } else {
        kernel_from(components, from + 1)
    }
}

/// The index of the first entry at or after `from` that is about `name`.
pub open spec fn entry_from(metadata: Seq<ComponentMetadata>, name: Seq<char>, from: int) -> Option<
    int,
>
    decreases metadata.len() - from,
{
    if from < 0 || from >= metadata.len() {
        None
    } else if metadata[from].name@ == name {
        Some(from)
    } else {
        entry_from(metadata, name, from + 1)
    }
}

/// The characters of each file name of a component.
pub open spec fn names_of(component: Component) -> Seq<Seq<char>> {
    Seq::new(component.file_names@.len(), |k: int| component.file_names@[k]@)
}

/// The components that some references point to.
pub open spec fn values(items: Seq<&Component>) -> Seq<Component> {
    Seq::new(items.len(), |k: int| *items[k])
}

/// The first of each group of components with the same file names, in the
/// order in which they stand.
pub open spec fn first_of_each(items: Seq<Component>) -> Seq<Component>
    decreases items.len(),
{
    if items.len() == 0 {
        Seq::empty()
    } else {
        let before = first_of_each(items.drop_last());
        if exists|j: int|
            0 <= j < items.len() - 1 && names_of(#[trigger] items[j]) == names_of(items.last()) {
            before
        } else {
            before.push(items.last())
        }
    }
}

/// The components that the first `count` references of `component` name, in
/// order. A reference that no component provides contributes nothing.
pub open spec fn referenced(components: Seq<Component>, component: Component, count: int) -> Seq<
    Component,
>
    decreases count,
{
    if count <= 0 {
        Seq::empty()
    } else {
        let before = referenced(components, component, count - 1);
        match provider(components, reference(component, count - 1)) {
            Some(i) => before.push(components[i]),
            None => before,
        }
    }
}

/// Each of `primary` behind the components that it refers to.
pub open spec fn with_references(components: Seq<Component>, primary: Seq<Component>) -> Seq<
    Component,
>
    decreases primary.len(),
{
    if primary.len() == 0 {
        Seq::empty()
    } else {
        with_references(components, primary.drop_last()) + referenced(
            components,
            primary.last(),
            primary.last().references@.len() as int,
        ).push(primary.last())
    }
}

/// The components that provide `names`, in order. A name that no component
/// provides contributes nothing.
pub open spec fn providers(components: Seq<Component>, names: Seq<Seq<u8>>) -> Seq<Component>
    decreases names.len(),
{
    if names.len() == 0 {
        Seq::empty()
    } else {
        let before = providers(components, names.drop_last());
        match provider(components, names.last()) {
            Some(i) => before.push(components[i]),
            None => before,
        }
    }
}

/// The components that a project has, given the file names of its packages
/// and classes: their providers and the kernel, each behind the components it
/// refers to, and of components with the same file names only the first.
pub open spec fn linked(components: Seq<Component>, names: Seq<Seq<u8>>) -> Seq<Component> {
    first_of_each(
        with_references(
            components,
            providers(components, names).push(components[kernel_from(components, 0)->0]),
        ),
    )
}

/// The file names that some includes stand for: a package with `.sty`, a
/// class with `.cls`; other includes stand for none.
pub open spec fn package_names_of(text: Seq<u8>, links: Seq<Link>) -> Seq<Seq<u8>>
    decreases links.len(),
{
    if links.len() == 0 {
        Seq::empty()
    } else {
        let before = package_names_of(text, links.drop_last());
        let path = text.subrange(links.last().path.start as int, links.last().path.end as int);
        match links.last().kind {
            LinkKind::Package => before.push(path + bytes_of(".sty")),
            LinkKind::Class => before.push(path + bytes_of(".cls")),
            _ => before,
        }
    }
}

/// The file names of the packages and classes of the first `count` of
/// `members`.
pub open spec fn package_names(workspace: WorkspaceView, members: Seq<usize>, count: int) -> Seq<
    Seq<u8>,
>
    decreases count,
{
    if count <= 0 {
        Seq::empty()
    } else {
        let document = workspace.documents[members[count - 1] as int];
        package_names(workspace, members, count - 1) + package_names_of(
            document.text,
            document.links(),
        )
    }
}

/// Keeps, of the components with the same file names, the first.
///
/// This is `Itertools::unique_by` with the file names as key. Its
/// documentation says that the items come out in the order in which they
/// went in, and that of items with equal keys the first is kept. Keys are
/// compared with `==` on `Vec<String>`, which holds when the strings are the
/// same one by one.
#[verifier::external_body]
fn unique_by_file_names<'a>(items: Vec<&'a Component>) -> (kept: Vec<&'a Component>)
    ensures
        values(kept@) == first_of_each(values(items@)),
{
    items.into_iter().unique_by(|component| &component.file_names).collect()
}

impl ComponentDatabase {
    /// Whether the database holds the kernel.
    pub open spec fn spec_has_kernel(&self) -> bool {
        kernel_from(self.components@, 0) is Some
    }

    /// Whether the database holds the kernel.
    #[verifier::when_used_as_spec(spec_has_kernel)]
    pub fn has_kernel(&self) -> (yes: bool)
        ensures
            yes == self.spec_has_kernel(),
    {
        let mut i: usize = 0;
        while i < self.components.len()
            invariant
                0 <= i <= self.components@.len(),
                kernel_from(self.components@, i as int) == kernel_from(self.components@, 0),
            decreases self.components@.len() - i,
        {
            if self.components[i].file_names.len() == 0 {
                return true;
            }
            i += 1;
        }
        false
    }

    /// The first component that provides the file of this name, given as
    /// bytes.
    pub fn find_bytes(&self, name: &[u8]) -> (found: Option<&Component>)
        ensures
            match found {
                Some(component) => provider(self.components@, name@) matches Some(i) && *component
                    == self.components@[i],
                None => provider(self.components@, name@) is None,
            },
    {
        let mut i: usize = 0;
        while i < self.components.len()
            invariant
                0 <= i <= self.components@.len(),
                provider_from(self.components@, name@, i as int) == provider(self.components@, name@),
            decreases self.components@.len() - i,
        {
            let component = &self.components[i];
            let mut k: usize = 0;
            while k < component.file_names.len()
                invariant
                    0 <= k <= component.file_names@.len(),
                    i < self.components@.len(),
                    *component == self.components@[i as int],
                    provider_from(self.components@, name@, i as int) == provider(
                        self.components@,
                        name@,
                    ),
                    forall|j: int| 0 <= j < k ==> file_name(*component, j) != name@,
                decreases component.file_names@.len() - k,
            {
                if bytes_same(component.file_names[k].as_str().as_bytes(), name) {
                    assert(file_name(*component, k as int) == name@);
                    assert(provides(self.components@[i as int], name@));
                    return Some(component);
                }
                k += 1;
            }
            i += 1;
        }
        None
    }

    /// The first component that provides the file of this name.
    pub fn find(&self, name: &str) -> (found: Option<&Component>)
        ensures
            match found {
                Some(component) => provider(self.components@, bytes_of(name)) matches Some(i)
                    && *component == self.components@[i],
                None => provider(self.components@, bytes_of(name)) is None,
            },
    {
        self.find_bytes(name.as_bytes())
    }

    /// The kernel: the first component without file names.
    pub fn kernel(&self) -> (found: &Component)
        requires
            self.has_kernel(),
        ensures
            *found == self.components@[kernel_from(self.components@, 0)->0],
    {
        let mut i: usize = 0;
        while i < self.components.len()
            invariant
                0 <= i <= self.components@.len(),
                kernel_from(self.components@, i as int) == kernel_from(self.components@, 0),
                kernel_from(self.components@, 0) is Some,
            decreases self.components@.len() - i,
        {
            if self.components[i].file_names.len() == 0 {
                return &self.components[i];
            }
            i += 1;
        }
        proof {
            assert(false);
        }
        &self.components[0]
    }

    /// What is known about the package of this name: its description, as plain
    /// text. There is none where the package is unknown or has no
    /// description.
    pub fn documentation(&self, name: &str) -> (found: Option<MarkupContent>)
        ensures
            match entry_from(self.metadata@, name@, 0) {
                Some(i) => match self.metadata@[i].description {
                    Some(description) => found matches Some(content) && content.kind
                        == MarkupKind::PlainText && content.value@ == description@,
                    None => found is None,
                },
                None => found is None,
            },
    {
        let mut i: usize = 0;
        while i < self.metadata.len()
            invariant
                0 <= i <= self.metadata@.len(),
                entry_from(self.metadata@, name@, i as int) == entry_from(self.metadata@, name@, 0),
            decreases self.metadata@.len() - i,
        {
            if crate::bytes::str_same(self.metadata[i].name.as_str(), name) {
                return match &self.metadata[i].description {
                    Some(description) => Some(
                        MarkupContent { kind: MarkupKind::PlainText, value: description.clone() },
                    ),
                    None => None,
                };
            }
            i += 1;
        }
        None
    }

    /// The components that provide `names`.
    fn providers<'a>(&'a self, names: &Vec<Vec<u8>>) -> (found: Vec<&'a Component>)
        ensures
            values(found@) == providers(self.components@, paths_of(names@)),
    {
        let ghost all = paths_of(names@);
        let mut found: Vec<&'a Component> = Vec::new();
        let mut k: usize = 0;
        assert(all.take(0) =~= Seq::<Seq<u8>>::empty());
        assert(values(found@) =~= Seq::<Component>::empty());
        while k < names.len()
            invariant
                0 <= k <= names@.len(),
                all == paths_of(names@),
                values(found@) == providers(self.components@, all.take(k as int)),
            decreases names@.len() - k,
        {
            assert(all.take(k + 1).drop_last() =~= all.take(k as int));
            assert(all.take(k + 1).last() == names@[k as int]@);
            let ghost before = values(found@);
            match self.find_bytes(names[k].as_slice()) {
                Some(component) => {
                    found.push(component);
                    assert(values(found@) =~= before.push(*component));
                },
                None => {},
            }
            k += 1;
        }
        assert(all.take(k as int) =~= all);
        found
    }

    /// Each of `primary` behind the components that it refers to.
    fn with_references<'a>(&'a self, primary: &Vec<&'a Component>) -> (found: Vec<&'a Component>)
        ensures
            values(found@) == with_references(self.components@, values(primary@)),
    {
        let ghost all = values(primary@);
        let mut found: Vec<&'a Component> = Vec::new();
        let mut i: usize = 0;
        assert(all.take(0) =~= Seq::<Component>::empty());
        assert(values(found@) =~= Seq::<Component>::empty());
        while i < primary.len()
            invariant
                0 <= i <= primary@.len(),
                all == values(primary@),
                values(found@) == with_references(self.components@, all.take(i as int)),
            decreases primary@.len() - i,
        {
            assert(all.take(i + 1).drop_last() =~= all.take(i as int));
            assert(all.take(i + 1).last() == *primary@[i as int]);
            let component = primary[i];
            let ghost before = values(found@);
            assert(before + Seq::<Component>::empty() =~= before);
            let mut k: usize = 0;
            while k < component.references.len()
                invariant
                    0 <= k <= component.references@.len(),
                    values(found@) == before + referenced(self.components@, *component, k as int),
                decreases component.references@.len() - k,
            {
                let ghost held = values(found@);
                let ghost so_far = referenced(self.components@, *component, k as int);
                match self.find_bytes(component.references[k].as_str().as_bytes()) {
                    Some(other) => {
                        found.push(other);
                        assert(values(found@) =~= held.push(*other));
                        assert(held.push(*other) =~= before + so_far.push(*other));
                    },
                    None => {},
                }
                k += 1;
            }
            let ghost held = values(found@);
            let ghost so_far = referenced(
                self.components@,
                *component,
                component.references@.len() as int,
            );
            found.push(component);
            assert(values(found@) =~= held.push(*component));
            assert(held.push(*component) =~= before + so_far.push(*component));
            i += 1;
        }
        assert(all.take(i as int) =~= all);
        found
    }

    /// The components that a project has, given the file names of its
    /// packages and classes.
    pub fn linked_to<'a>(&'a self, names: &Vec<Vec<u8>>) -> (found: Vec<&'a Component>)
        requires
            self.has_kernel(),
        ensures
            values(found@) == linked(self.components@, paths_of(names@)),
    {
        let mut primary = self.providers(names);
        let ghost before = values(primary@);
        let kernel = self.kernel();
        primary.push(kernel);
        assert(values(primary@) =~= before.push(*kernel));
        let all = self.with_references(&primary);
        unique_by_file_names(all)
    }

    /// The components that the project of document `child` has: those that
    /// provide the packages and classes that the project's documents name, and
    /// the kernel, each behind the components it refers to, and of components
    /// with the same file names only the first.
    pub fn linked_components<'a>(&'a self, workspace: &Workspace, child: usize) -> (found: Vec<
        &'a Component,
    >)
        requires
            self.has_kernel(),
            workspace.wf(),
            child < workspace@.documents.len(),
        ensures
            values(found@) == linked(
                self.components@,
                package_names(
                    workspace@,
                    project_of(workspace@, child as int),
                    project_of(workspace@, child as int).len() as int,
                ),
            ),
    {
        let members = workspace.related(child);
        let names = package_names_for(workspace, &members);
        self.linked_to(&names)
    }
}

/// The file names of the packages and classes that `members` name.
pub fn package_names_for(workspace: &Workspace, members: &Vec<usize>) -> (names: Vec<Vec<u8>>)
    requires
        workspace.wf(),
        forall|k: int| 0 <= k < members@.len() ==> #[trigger] members@[k] < workspace@.documents.len(),
    ensures
        paths_of(names@) == package_names(workspace@, members@, members@.len() as int),
{
    let mut names: Vec<Vec<u8>> = Vec::new();
    assert(paths_of(names@) =~= Seq::<Seq<u8>>::empty());
    let mut i: usize = 0;
    while i < members.len()
        invariant
            workspace.wf(),
            forall|k: int|
                0 <= k < members@.len() ==> #[trigger] members@[k] < workspace@.documents.len(),
            0 <= i <= members@.len(),
            paths_of(names@) == package_names(workspace@, members@, i as int),
        decreases members@.len() - i,
    {
        assert(members@[i as int] < workspace@.documents.len());
        let document = workspace.document(members[i]);
        let links = document.links();
        let text = document.text();
        let ghost before = paths_of(names@);
        let mut k: usize = 0;
        assert(links@.take(0) =~= Seq::<Link>::empty());
        assert(before + Seq::<Seq<u8>>::empty() =~= before);
        while k < links.len()
            invariant
                0 <= k <= links@.len(),
                crate::analysis::links_within(links@, text@.len() as int),
                paths_of(names@) == before + package_names_of(text@, links@.take(k as int)),
            decreases links@.len() - k,
        {
            assert(links@.take(k + 1).drop_last() =~= links@.take(k as int));
            assert(links@.take(k + 1).last() == links@[k as int]);
            let link = &links[k];
            assert(links@[k as int].path.end <= text@.len());
            let ghost held = paths_of(names@);
            let ghost path = text@.subrange(link.path.start as int, link.path.end as int);
            match link.kind {
                LinkKind::Package => {
                    let mut name = copy_range(text.as_slice(), link.path.start, link.path.end);
                    let tail = ".sty".as_bytes();
                    extend_range(&mut name, tail, 0, tail.len());
                    assert(tail@.subrange(0, tail@.len() as int) =~= tail@);
                    names.push(name);
                    assert(paths_of(names@) =~= held.push(path + bytes_of(".sty")));
                },
                LinkKind::Class => {
                    let mut name = copy_range(text.as_slice(), link.path.start, link.path.end);
                    let tail = ".cls".as_bytes();
                    extend_range(&mut name, tail, 0, tail.len());
                    assert(tail@.subrange(0, tail@.len() as int) =~= tail@);
                    names.push(name);
                    assert(paths_of(names@) =~= held.push(path + bytes_of(".cls")));
                },
                _ => {},
            }
            assert(paths_of(names@) =~= before + package_names_of(text@, links@.take(k + 1)));
            k += 1;
        }
        assert(links@.take(k as int) =~= links@);
        i += 1;
    }
    names
}

} // verus!
