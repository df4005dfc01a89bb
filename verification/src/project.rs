//! Source-tree ingestion: from the syntax tree of a Java source file to the
//! package it declares and the classes, interfaces and enums it holds.
//!
//! A syntax tree is handed in as the row of its nodes in depth-first order,
//! parent before child, each with its depth. The subtree of a node is the
//! run of deeper nodes that follows it.

use crate::lists::{sort_dedup, sorted_unique};
use crate::text::{chars_of, ends_with, has_prefix, has_suffix, same_text, starts_with, views};
use vstd::prelude::*;
use vstd::string::StringExecFns;

verus! {

/// What one or more source files declare for one package.
#[derive(Debug)]
pub struct DeclaredPackage {
    /// The name of the package, once a declaration was found.
    pub name: Option<String>,
    /// The classes, interfaces and enums declared in the package.
    pub contained_identifiers: Vec<String>,
    /// The files that contributed.
    pub files: Vec<String>,
}

impl Default for DeclaredPackage {
    /// A package without a name, identifiers or files.
    fn default() -> (r: Self)
        ensures
            r.name is None,
            r.contained_identifiers@.len() == 0,
            r.files@.len() == 0,
    {
        DeclaredPackage { name: None, contained_identifiers: Vec::new(), files: Vec::new() }
    }
}

/// The text of an optional name.
pub open spec fn name_view(name: Option<String>) -> Option<Seq<char>> {
    match name {
        Some(n) => Some(n@),
        None => None,
    }
}

/// Do the two spell the same name, or are both without one?
fn same_name(a: &Option<String>, b: &Option<String>) -> (r: bool)
    ensures
        r == (name_view(*a) == name_view(*b)),
{
    match a {
        Some(x) => match b {
            Some(y) => same_text(x.as_str(), y.as_str()),
            None => false,
        },
        None => b.is_none(),
    }
}

/// The names of `a`, then those of `b`, in ascending order, each once.
fn merged_names(a: &Vec<String>, b: &Vec<String>) -> (out: Vec<String>)
    ensures
        views(out@) == sort_dedup(views(a@) + views(b@)),
{
    let mut all: Vec<String> = Vec::new();
    let mut i: usize = 0;
    while i < a.len()
        invariant
            i <= a.len(),
            views(all@) == views(a@).take(i as int),
        decreases a.len() - i,
    {
        let name = a[i].clone();
        proof {
            assert(name@ == a@[i as int]@);
            assert(views(all@.push(name)) =~= views(all@).push(name@));
            assert(views(a@).take(i + 1) =~= views(a@).take(i as int).push(a@[i as int]@));
        }
        all.push(name);
        i += 1;
    }
    let mut k: usize = 0;
    proof {
        assert(views(a@).take(a.len() as int) =~= views(a@));
        assert(views(a@) + views(b@).take(0) =~= views(a@));
    }
    while k < b.len()
        invariant
            k <= b.len(),
            views(all@) == views(a@) + views(b@).take(k as int),
        decreases b.len() - k,
    {
        let name = b[k].clone();
        proof {
            assert(name@ == b@[k as int]@);
            assert(views(all@.push(name)) =~= views(all@).push(name@));
            assert(views(b@).take(k + 1) =~= views(b@).take(k as int).push(b@[k as int]@));
            assert(views(a@) + views(b@).take(k + 1) =~= (views(a@) + views(b@).take(k as int)).push(
                b@[k as int]@,
            ));
        }
        all.push(name);
        k += 1;
    }
    proof {
        assert(views(b@).take(b.len() as int) =~= views(b@));
    }
    sorted_unique(all)
}

impl DeclaredPackage {
    /// Sets the name of the package.
    pub fn set_package_name(&mut self, name: String)
        ensures
            final(self).name == Some(name),
            final(self).contained_identifiers == old(self).contained_identifiers,
            final(self).files == old(self).files,
    {
        self.name = Some(name);
    }

    /// Adds a declared class, interface or enum.
    pub fn add_class_name(&mut self, class_name: String)
        ensures
            final(self).name == old(self).name,
            final(self).contained_identifiers@ == old(self).contained_identifiers@.push(class_name),
            final(self).files == old(self).files,
    {
        self.contained_identifiers.push(class_name);
    }

    /// Adds a contributing file.
    pub fn add_file_name(&mut self, file_name: String)
        ensures
            final(self).name == old(self).name,
            final(self).contained_identifiers == old(self).contained_identifiers,
            final(self).files@ == old(self).files@.push(file_name),
    {
        self.files.push(file_name);
    }

    /// Takes in what `other` declares for the same package: the identifiers
    /// and the files of both, each list sorted and without repetition. A
    /// package of another name is left out, and `self` stays as it is.
    pub fn accum(&mut self, other: &DeclaredPackage)
        ensures
            final(self).name == old(self).name,
            name_view(old(self).name) == name_view(other.name) ==> {
                &&& views(final(self).contained_identifiers@) == sort_dedup(
                    views(old(self).contained_identifiers@) + views(other.contained_identifiers@),
                )
                &&& views(final(self).files@) == sort_dedup(
                    views(old(self).files@) + views(other.files@),
                )
            },
            name_view(old(self).name) != name_view(other.name) ==> {
                &&& final(self).contained_identifiers == old(self).contained_identifiers
                &&& final(self).files == old(self).files
            },
    {
        if same_name(&self.name, &other.name) {
            let identifiers = merged_names(&self.contained_identifiers, &other.contained_identifiers);
            let files = merged_names(&self.files, &other.files);
            self.contained_identifiers = identifiers;
            self.files = files;
        }
    }
}

/// One node of a syntax tree.
#[derive(Debug)]
pub struct SyntaxNode {
    /// The kind of the node, as the grammar names it.
    pub kind: String,
    /// The source text that the node spans.
    pub text: String,
    /// How far below the root the node stands; the root has depth 0.
    pub depth: usize,
}

/// The syntax tree of one source file: its nodes in depth-first order,
/// parent before child.
#[derive(Debug)]
pub struct SyntaxTree {
    pub nodes: Vec<SyntaxNode>,
}

/// The number of nodes from `from` on that stand deeper than `depth`,
/// without a gap.
pub open spec fn run_len(nodes: Seq<SyntaxNode>, from: int, depth: usize) -> nat
    decreases nodes.len() - from,
{
    if from < 0 || from >= nodes.len() || nodes[from].depth <= depth {
        0
    } else {
        1 + run_len(nodes, from + 1, depth)
    }
}

/// The position after the last node of the subtree of node `at`.
pub open spec fn subtree_end(nodes: Seq<SyntaxNode>, at: int) -> int {
    at + 1 + run_len(nodes, at + 1, nodes[at].depth)
}

/// Is a node of this kind an annotation?
pub open spec fn is_annotation(kind: Seq<char>) -> bool {
    kind == "marker_annotation"@ || kind == "annotation"@
}

/// Is a node of this kind the declaration of a class, an interface or an
/// enum?
pub open spec fn is_type_declaration(kind: Seq<char>) -> bool {
    kind == "class_declaration"@ || kind == "interface_declaration"@ || kind
        == "enum_declaration"@
}

/// The identifier that the nodes from `from` up to `limit` spell, after
/// `found`. A scoped identifier ends it with its text; an identifier or a
/// `.` adds its text; the subtree of an annotation is passed over; any other
/// node ends it once something was found, and is searched otherwise.
pub open spec fn identifier_from(
    nodes: Seq<SyntaxNode>,
    from: int,
    limit: int,
    found: Seq<char>,
) -> Seq<char>
    decreases limit - from,
{
    if from < 0 || from >= limit || limit > nodes.len() {
        found
    } else {
        let kind = nodes[from].kind@;
        if kind == "scoped_identifier"@ {
            found + nodes[from].text@
        } else if kind == "identifier"@ || kind == "."@ {
            identifier_from(nodes, from + 1, limit, found + nodes[from].text@)
        } else if is_annotation(kind) {
            let next = subtree_end(nodes, from);
            identifier_from(
                nodes,
                if next < limit {
                    next
                } else {
                    limit
                },
                limit,
                found,
            )
        } else if found.len() > 0 {
            found
        } else {
            identifier_from(nodes, from + 1, limit, found)
        }
    }
}

/// The identifier that the declaration at node `at` declares: what the
/// nodes of its subtree spell. It is empty where they spell none.
pub open spec fn declared_identifier(nodes: Seq<SyntaxNode>, at: int) -> Seq<char> {
    identifier_from(nodes, at + 1, subtree_end(nodes, at), Seq::empty())
}

/// A package as texts: its name, its identifiers, its files.
pub type PackageView = (Option<Seq<char>>, Seq<Seq<char>>, Seq<Seq<char>>);

/// What a package holds, as texts.
pub open spec fn package_view(p: DeclaredPackage) -> PackageView {
    (name_view(p.name), views(p.contained_identifiers@), views(p.files@))
}

/// What the first `upto` nodes of a tree declare: the package name of the
/// last package declaration that spells one, and the identifier of every
/// declaration of a class, an interface or an enum that spells one, in the
/// order of the nodes.
pub open spec fn declared_upto(nodes: Seq<SyntaxNode>, upto: int) -> (
    Option<Seq<char>>,
    Seq<Seq<char>>,
)
    decreases upto,
{
    if upto <= 0 {
        (None, Seq::empty())
    } else {
        let before = declared_upto(nodes, upto - 1);
        let at = upto - 1;
        let kind = nodes[at].kind@;
        let identifier = declared_identifier(nodes, at);
        if identifier.len() == 0 {
            before
        } else if kind == "package_declaration"@ {
            (Some(identifier), before.1)
        } else if is_type_declaration(kind) {
            (before.0, before.1.push(identifier))
        } else {
            before
        }
    }
}

/// The kinds of the declarations among the first `upto` nodes that spell no
/// identifier, in the order of the nodes. Such a declaration adds nothing to
/// what the tree declares.
pub open spec fn unnamed_upto(nodes: Seq<SyntaxNode>, upto: int) -> Seq<Seq<char>>
    decreases upto,
{
    if upto <= 0 {
        Seq::empty()
    } else {
        let before = unnamed_upto(nodes, upto - 1);
        let kind = nodes[upto - 1].kind@;
        if (kind == "package_declaration"@ || is_type_declaration(kind)) && declared_identifier(
            nodes,
            upto - 1,
        ).len() == 0 {
            before.push(kind)
        } else {
            before
        }
    }
}

/// What a source file contributes: the package and identifiers that its
/// tree declares, and the file itself where it declares at least one
/// identifier. A file without a package declaration contributes nothing.
pub open spec fn file_package(nodes: Seq<SyntaxNode>, path: Seq<char>) -> Option<PackageView> {
    let declared = declared_upto(nodes, nodes.len() as int);
    if declared.0 is None {
        None
    } else {
        Some(
            (
                declared.0,
                declared.1,
                if declared.1.len() > 0 {
                    seq![path]
                } else {
                    Seq::empty()
                },
            ),
        )
    }
}

impl SyntaxTree {
    /// The position after the last node of the subtree of node `at`.
    pub fn subtree_end(&self, at: usize) -> (end: usize)
        requires
            at < self.nodes.len(),
        ensures
            end == subtree_end(self.nodes@, at as int),
            at < end <= self.nodes.len(),
    {
        let depth = self.nodes[at].depth;
        let mut end: usize = at + 1;
        while end < self.nodes.len() && self.nodes[end].depth > depth
            invariant
                at < end <= self.nodes.len(),
                depth == self.nodes[at as int].depth,
                run_len(self.nodes@, at + 1, depth) == (end - (at + 1)) + run_len(
                    self.nodes@,
                    end as int,
                    depth,
                ),
            decreases self.nodes.len() - end,
        {
            end += 1;
        }
        end
    }

    /// The identifier that the declaration at node `at` declares, empty
    /// where its subtree spells none.
    pub fn collect_identifier(&self, at: usize) -> (identifier: String)
        requires
            at < self.nodes.len(),
        ensures
            identifier@ == declared_identifier(self.nodes@, at as int),
    {
        let limit = self.subtree_end(at);
        let mut found = String::new();
        let mut from: usize = at + 1;
        while from < limit
            invariant
                at < from <= limit <= self.nodes.len(),
                declared_identifier(self.nodes@, at as int) == identifier_from(
                    self.nodes@,
                    from as int,
                    limit as int,
                    found@,
                ),
            decreases limit - from,
        {
            let node = &self.nodes[from];
            let kind = node.kind.as_str();
            if same_text(kind, "scoped_identifier") {
                found.append(node.text.as_str());
                return found;
            } else if same_text(kind, "identifier") || same_text(kind, ".") {
                found.append(node.text.as_str());
                from += 1;
            } else if same_text(kind, "marker_annotation") || same_text(kind, "annotation") {
                let next = self.subtree_end(from);
                from = if next < limit {
                    next
                } else {
                    limit
                };
            } else if found.as_str().unicode_len() > 0 {
                return found;
            } else {
                from += 1;
            }
        }
        found
    }

    /// What the tree declares: the package, and every class, interface and
    /// enum, each under the identifier that its declaration spells.
    pub fn collect_from_tree(&self) -> (declared: DeclaredPackage)
        ensures
            name_view(declared.name) == declared_upto(self.nodes@, self.nodes.len() as int).0,
            views(declared.contained_identifiers@) == declared_upto(
                self.nodes@,
                self.nodes.len() as int,
            ).1,
            declared.files@.len() == 0,
    {
        let mut declared = DeclaredPackage::default();
        let mut at: usize = 0;
        proof {
            assert(views(declared.contained_identifiers@) =~= Seq::<Seq<char>>::empty());
        }
        while at < self.nodes.len()
            invariant
                at <= self.nodes.len(),
                name_view(declared.name) == declared_upto(self.nodes@, at as int).0,
                views(declared.contained_identifiers@) == declared_upto(self.nodes@, at as int).1,
                declared.files@.len() == 0,
            decreases self.nodes.len() - at,
        {
            let kind = self.nodes[at].kind.as_str();
            let is_package = same_text(kind, "package_declaration");
            let is_type = same_text(kind, "class_declaration") || same_text(
                kind,
                "interface_declaration",
            ) || same_text(kind, "enum_declaration");
            if is_package || is_type {
                let identifier = self.collect_identifier(at);
                if identifier.as_str().unicode_len() > 0 {
                    if is_package {
                        declared.set_package_name(identifier);
                    } else {
                        let ghost before = declared.contained_identifiers@;
                        declared.add_class_name(identifier);
                        proof {
                            assert(views(declared.contained_identifiers@) =~= views(before).push(
                                identifier@,
                            ));
                        }
                    }
                }
            }
            at += 1;
        }
        declared
    }

    /// The kinds of the declarations of a package, a class, an interface or
    /// an enum that spell no identifier, for the caller to report.
    pub fn unnamed_declarations(&self) -> (kinds: Vec<String>)
        ensures
            views(kinds@) == unnamed_upto(self.nodes@, self.nodes.len() as int),
    {
        let mut kinds: Vec<String> = Vec::new();
        let mut at: usize = 0;
        proof {
            assert(views(kinds@) =~= Seq::<Seq<char>>::empty());
        }
        while at < self.nodes.len()
            invariant
                at <= self.nodes.len(),
                views(kinds@) == unnamed_upto(self.nodes@, at as int),
            decreases self.nodes.len() - at,
        {
            let kind = self.nodes[at].kind.as_str();
            if same_text(kind, "package_declaration") || same_text(kind, "class_declaration")
                || same_text(kind, "interface_declaration") || same_text(kind, "enum_declaration") {
                let identifier = self.collect_identifier(at);
                if identifier.as_str().unicode_len() == 0 {
                    let unnamed = self.nodes[at].kind.clone();
                    proof {
                        assert(views(kinds@.push(unnamed)) =~= views(kinds@).push(unnamed@));
                    }
                    kinds.push(unnamed);
                }
            }
            at += 1;
        }
        kinds
    }

    /// What the source file at `path` contributes, or `None` where the file
    /// declares no package.
    pub fn collect_from_file(&self, path: &str) -> (r: Option<DeclaredPackage>)
        ensures
            match r {
                Some(declared) => file_package(self.nodes@, path@) == Some(package_view(declared)),
                None => file_package(self.nodes@, path@) is None,
            },
    {
        let mut declared = self.collect_from_tree();
        if declared.name.is_none() {
            return None;
        }
        if declared.contained_identifiers.len() > 0 {
            declared.add_file_name(String::from_str(path));
            proof {
                assert(views(declared.files@) =~= seq![path@]);
            }
        } else {
            proof {
                assert(views(declared.files@) =~= Seq::<Seq<char>>::empty());
            }
        }
        Some(declared)
    }
}

/// Is a directory entry of this name left out of a crawl? Hidden entries
/// are, and the directory of generated sources.
pub fn should_skip(file_name: &str) -> (b: bool)
    ensures
        b == (has_prefix(file_name@, "."@) || file_name@ == "generated"@),
{
    let chars = chars_of(file_name);
    let dot = chars_of(".");
    starts_with(chars.as_slice(), dot.as_slice()) || same_text(file_name, "generated")
}

/// Is a file of this name a Java source file? Its extension must be
/// `java`: the name ends in `.java` and has something before that.
pub fn is_java_source(file_name: &str) -> (b: bool)
    ensures
        b == (has_suffix(file_name@, ".java"@) && file_name@.len() > ".java"@.len()),
{
    let chars = chars_of(file_name);
    let suffix = chars_of(".java");
    ends_with(chars.as_slice(), suffix.as_slice()) && chars.len() > suffix.len()
}

/// The texts of a row of packages.
pub open spec fn package_views(packages: Seq<DeclaredPackage>) -> Seq<PackageView> {
    packages.map_values(|p: DeclaredPackage| package_view(p))
}

/// The position of the first package of that name, or the number of
/// packages where none has it.
pub open spec fn position_of(packages: Seq<PackageView>, name: Option<Seq<char>>) -> int
    decreases packages.len(),
{
    if packages.len() == 0 {
        0
    } else if packages[0].0 == name {
        0
    } else {
        1 + position_of(packages.drop_first(), name)
    }
}

/// What a package is after it took in `earlier`, a package of the same
/// name.
pub open spec fn accumulated(package: PackageView, earlier: PackageView) -> PackageView {
    (
        package.0,
        sort_dedup(package.1 + earlier.1),
        sort_dedup(package.2 + earlier.2),
    )
}

/// The packages after `package` came in: it takes the place of the package
/// of its name, taking in what that one held, or is added at the end.
pub open spec fn merged_in(packages: Seq<PackageView>, package: PackageView) -> Seq<PackageView> {
    let at = position_of(packages, package.0);
    if 0 <= at < packages.len() {
        packages.update(at, accumulated(package, packages[at]))
    } else {
        packages.push(package)
    }
}

/// One parsed source file.
#[derive(Debug)]
pub struct SourceFile {
    /// Where the file is.
    pub path: String,
    /// Its syntax tree.
    pub tree: SyntaxTree,
}

/// The packages that the first `upto` files declare together.
pub open spec fn crawled(files: Seq<SourceFile>, upto: int) -> Seq<PackageView>
    decreases upto,
{
    if upto <= 0 {
        Seq::empty()
    } else {
        let before = crawled(files, upto - 1);
        match file_package(files[upto - 1].tree.nodes@, files[upto - 1].path@) {
            Some(package) => merged_in(before, package),
            None => before,
        }
    }
}

/// The first package of that name is at `at` when `at` holds one and
/// nothing before it does.
proof fn lemma_position_of(packages: Seq<PackageView>, name: Option<Seq<char>>, at: int)
    requires
        0 <= at <= packages.len(),
        forall|j: int| 0 <= j < at ==> packages[j].0 != name,
        at < packages.len() ==> packages[at].0 == name,
    ensures
        position_of(packages, name) == at,
    decreases packages.len(),
{
    if packages.len() != 0 && at > 0 {
        let rest = packages.drop_first();
        assert(packages[0].0 != name);
        assert forall|j: int| 0 <= j < at - 1 implies rest[j].0 != name by {
            assert(rest[j] == packages[j + 1]);
        }
        if at < packages.len() {
            assert(rest[at - 1] == packages[at]);
        }
        lemma_position_of(rest, name, at - 1);
    }
}

/// Takes `package` in among `packages`: it replaces the package of its
/// name, after taking in what that one held, or is added at the end.
pub fn merge_package(packages: &mut Vec<DeclaredPackage>, package: DeclaredPackage)
    ensures
        package_views(final(packages)@) == merged_in(
            package_views(old(packages)@),
            package_view(package),
        ),
{
    let ghost before = package_views(packages@);
    let mut at: usize = 0;
    while at < packages.len() && !same_name(&packages[at].name, &package.name)
        invariant
            at <= packages.len(),
            before == package_views(packages@),
            packages@ == old(packages)@,
            forall|j: int| 0 <= j < at ==> before[j].0 != name_view(package.name),
        decreases packages.len() - at,
    {
        at += 1;
    }
    proof {
        lemma_position_of(before, name_view(package.name), at as int);
    }
    if at < packages.len() {
        let mut package = package;
        package.accum(&packages[at]);
        packages.set(at, package);
        proof {
            assert(package_views(packages@) =~= before.update(at as int, package_view(package)));
        }
    } else {
        packages.push(package);
        proof {
            assert(package_views(packages@) =~= before.push(package_view(package)));
        }
    }
}

/// The packages that a row of parsed source files declare together. Files
/// that declare the same package are merged; a file without a package
/// declaration is left out.
pub fn crawl_project(files: &Vec<SourceFile>) -> (packages: Vec<DeclaredPackage>)
    ensures
        package_views(packages@) == crawled(files@, files.len() as int),
{
    let mut packages: Vec<DeclaredPackage> = Vec::new();
    let mut i: usize = 0;
    proof {
        assert(package_views(packages@) =~= Seq::<PackageView>::empty());
    }
    while i < files.len()
        invariant
            i <= files.len(),
            package_views(packages@) == crawled(files@, i as int),
        decreases files.len() - i,
    {
        match files[i].tree.collect_from_file(files[i].path.as_str()) {
            Some(package) => {
                merge_package(&mut packages, package);
            },
            None => {},
        }
        i += 1;
    }
    packages
}

} // verus!
