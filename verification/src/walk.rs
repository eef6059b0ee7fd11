//! The walk through the places to search: where it goes, and which files it leaves out.

use std::path::Path;

use vstd::prelude::*;

use ignore::overrides::{Override, OverrideBuilder};
use ignore::types::{Types, TypesBuilder};
use ignore::WalkBuilder;

use crate::cli::Cli;
use crate::text::{begins_with, chars_of, texts};

verus! {

/// A builder of `ignore` for a walk.
#[verifier::external_type_specification]
#[verifier::external_body]
pub struct ExWalkBuilder(ignore::WalkBuilder);

/// A builder of `ignore` for globs.
#[verifier::external_type_specification]
#[verifier::external_body]
pub struct ExOverrideBuilder(ignore::overrides::OverrideBuilder);

/// Globs of `ignore`.
#[verifier::external_type_specification]
#[verifier::external_body]
pub struct ExOverride(ignore::overrides::Override);

/// A builder of `ignore` for file types.
#[verifier::external_type_specification]
#[verifier::external_body]
pub struct ExTypesBuilder(ignore::types::TypesBuilder);

/// File types of `ignore`.
#[verifier::external_type_specification]
#[verifier::external_body]
pub struct ExTypes(ignore::types::Types);

/// What a walk does.
pub ghost struct WalkPlan {
    /// The places that it goes through.
    pub roots: Seq<Seq<char>>,
    /// Whether it follows symbolic links.
    pub follow_links: bool,
    /// Whether it leaves hidden files out.
    pub skip_hidden: bool,
    /// Whether it heeds ignore files.
    pub heed_ignore_files: bool,
    /// Whether it heeds those of git in a repository only.
    pub require_git: bool,
    /// Whether it goes through a directory in the order of the paths.
    pub in_path_order: bool,
    /// The globs that were given for files to meet. A blank glob, or one that begins with `#`, stands
    /// among them and has no effect.
    pub globs: Option<Seq<Seq<char>>>,
    /// The file types that were given, each to be searched or to be left out. The name `all` stands
    /// for every type.
    pub types: Option<Seq<TypeChoice>>,
}

/// The choice of a file type.
pub ghost struct TypeChoice {
    /// The name of the type.
    pub name: Seq<char>,
    /// Whether files of the type are searched, or else left out.
    pub search: bool,
}

/// What the walk of a builder does.
pub uninterp spec fn walk_plan(builder: WalkBuilder) -> WalkPlan;

/// The globs that a builder was given, in order. A blank glob, or one that begins with `#`, is given
/// but has no effect.
pub uninterp spec fn builder_globs(builder: OverrideBuilder) -> Seq<Seq<char>>;

/// The globs that the builder of overrides was given.
pub uninterp spec fn override_globs(overrides: Override) -> Seq<Seq<char>>;

/// The choices that a builder was given, in order. The name `all` stands for every type.
pub uninterp spec fn builder_choices(builder: TypesBuilder) -> Seq<TypeChoice>;

/// The choices that the builder of types was given.
pub uninterp spec fn type_choices(types: Types) -> Seq<TypeChoice>;

/// The text of the error that `OverrideBuilder::add` gives for a glob, where it gives one.
pub uninterp spec fn glob_error(glob: Seq<char>) -> Option<Seq<char>>;

/// The text of the error that `OverrideBuilder::build` gives for globs, where it gives one.
pub uninterp spec fn globs_error(globs: Seq<Seq<char>>) -> Option<Seq<char>>;

/// The text of the error that `TypesBuilder::build` gives for choices, where it gives one.
pub uninterp spec fn types_error(choices: Seq<TypeChoice>) -> Option<Seq<char>>;

/// `WalkBuilder::new` of `ignore`: a walk through one place that does not follow links, leaves
/// hidden files out and heeds ignore files, those of git in a repository only.
#[verifier::external_body]
fn new_walk(root: &str) -> (builder: WalkBuilder)
    ensures
        walk_plan(builder) == (WalkPlan {
            roots: seq![root@],
            follow_links: false,
            skip_hidden: true,
            heed_ignore_files: true,
            require_git: true,
            in_path_order: false,
            globs: None,
            types: None,
        }),
{
    WalkBuilder::new(root)
}

/// `WalkBuilder::add` of `ignore`: the walk goes through one more place.
#[verifier::external_body]
fn add_root(builder: &mut WalkBuilder, root: &str)
    ensures
        walk_plan(*final(builder)) == (WalkPlan {
            roots: walk_plan(*old(builder)).roots.push(root@),
            ..walk_plan(*old(builder))
        }),
{
    builder.add(root);
}

/// `WalkBuilder::follow_links` of `ignore`.
#[verifier::external_body]
fn set_follow_links(builder: &mut WalkBuilder, yes: bool)
    ensures
        walk_plan(*final(builder)) == (WalkPlan { follow_links: yes, ..walk_plan(*old(builder)) }),
{
    builder.follow_links(yes);
}

/// `WalkBuilder::sort_by_file_path` of `ignore`, with the order of paths of the standard library.
#[verifier::external_body]
fn set_path_order(builder: &mut WalkBuilder)
    ensures
        walk_plan(*final(builder)) == (WalkPlan {
            in_path_order: true,
            ..walk_plan(*old(builder))
        }),
{
    builder.sort_by_file_path(Path::cmp);
}

/// `WalkBuilder::hidden` of `ignore`.
#[verifier::external_body]
fn set_skip_hidden(builder: &mut WalkBuilder, yes: bool)
    ensures
        walk_plan(*final(builder)) == (WalkPlan { skip_hidden: yes, ..walk_plan(*old(builder)) }),
{
    builder.hidden(yes);
}

/// `WalkBuilder::parents`, `ignore`, `git_ignore`, `git_global` and `git_exclude` of `ignore`:
/// whether ignore files of any kind are heeded.
#[verifier::external_body]
fn set_heed_ignore_files(builder: &mut WalkBuilder, yes: bool)
    ensures
        walk_plan(*final(builder)) == (WalkPlan {
            heed_ignore_files: yes,
            ..walk_plan(*old(builder))
        }),
{
    builder.parents(yes).ignore(yes).git_ignore(yes).git_global(yes).git_exclude(yes);
}

/// `WalkBuilder::require_git` of `ignore`.
#[verifier::external_body]
fn set_require_git(builder: &mut WalkBuilder, yes: bool)
    ensures
        walk_plan(*final(builder)) == (WalkPlan { require_git: yes, ..walk_plan(*old(builder)) }),
{
    builder.require_git(yes);
}

/// `WalkBuilder::overrides` of `ignore`: files have to meet the globs.
#[verifier::external_body]
fn set_overrides(builder: &mut WalkBuilder, overrides: Override)
    ensures
        walk_plan(*final(builder)) == (WalkPlan {
            globs: Some(override_globs(overrides)),
            ..walk_plan(*old(builder))
        }),
{
    builder.overrides(overrides);
}

/// `WalkBuilder::types` of `ignore`: files have to meet the choice of types.
#[verifier::external_body]
fn set_types(builder: &mut WalkBuilder, types: Types)
    ensures
        walk_plan(*final(builder)) == (WalkPlan {
            types: Some(type_choices(types)),
            ..walk_plan(*old(builder))
        }),
{
    builder.types(types);
}

/// `OverrideBuilder::new` of `ignore`, for the current directory: no globs yet.
#[verifier::external_body]
fn new_overrides() -> (builder: OverrideBuilder)
    ensures
        builder_globs(builder) == Seq::<Seq<char>>::empty(),
{
    OverrideBuilder::new(".")
}

/// How many braces a glob may open. Each level of braces within braces takes a part of the stack
/// when a glob is read.
pub const MAX_GLOB_BRACES: usize = 500;

/// How many braces a text opens.
pub open spec fn braces(text: Seq<char>) -> nat
    decreases text.len(),
{
    if text.len() == 0 {
        0
    } else {
        braces(text.drop_last()) + if text.last() == '{' {
            1nat
        } else {
            0nat
        }
    }
}

/// Whether a glob may lie too deep in braces to be read. One that begins with `#` is not read.
pub open spec fn too_deep(glob: Seq<char>) -> bool {
    !"#"@.is_prefix_of(glob) && braces(glob) > MAX_GLOB_BRACES
}

/// What is said of a glob that may lie too deep in braces.
pub const TOO_DEEP: &'static str = "glob opens too many braces";

/// Whether a glob may lie too deep in braces to be read.
pub fn is_too_deep(glob: &str) -> (result: bool)
    ensures
        result == too_deep(glob@),
{
    if begins_with(glob, "#") {
        return false;
    }
    let characters = chars_of(glob);
    let mut count: usize = 0;
    let mut at: usize = 0;
    while at < characters.len()
        invariant
            characters@ == glob@,
            at <= glob@.len(),
            count == braces(glob@.take(at as int)),
            count <= at,
        decreases glob@.len() - at,
    {
        assert(glob@.take(at + 1).drop_last() == glob@.take(at as int));
        if characters[at] == '{' {
            count = count + 1;
        }
        at = at + 1;
    }
    assert(glob@.take(at as int) == glob@);
    count > MAX_GLOB_BRACES
}

/// `OverrideBuilder::add` of `ignore`: one more glob, or an error where it cannot be read. It reads
/// braces within braces by recursion, so the number of braces is bounded.
#[verifier::external_body]
fn add_glob(builder: &mut OverrideBuilder, glob: &str) -> (result: Result<(), String>)
    requires
        !too_deep(glob@),
    ensures
        match result {
            Ok(()) => glob_error(glob@) is None && builder_globs(*final(builder)) == builder_globs(
                *old(builder),
            ).push(glob@),
            Err(message) => glob_error(glob@) == Some(message@),
        },
{
    match builder.add(glob) {
        Ok(_) => Ok(()),
        Err(error) => Err(error.to_string()),
    }
}

/// `OverrideBuilder::build` of `ignore`: the globs put together, or an error.
#[verifier::external_body]
fn build_overrides(builder: &OverrideBuilder) -> (result: Result<Override, String>)
    ensures
        match result {
            Ok(overrides) => globs_error(builder_globs(*builder)) is None && override_globs(
                overrides,
            ) == builder_globs(*builder),
            Err(message) => globs_error(builder_globs(*builder)) == Some(message@),
        },
{
    builder.build().map_err(|error| error.to_string())
}

/// `TypesBuilder::new` and `TypesBuilder::add_defaults` of `ignore`: the file types that are known,
/// and none of them chosen.
#[verifier::external_body]
fn new_types() -> (builder: TypesBuilder)
    ensures
        builder_choices(builder) == Seq::<TypeChoice>::empty(),
{
    let mut builder = TypesBuilder::new();
    builder.add_defaults();
    builder
}

/// `TypesBuilder::select` of `ignore`: files of the type are searched.
#[verifier::external_body]
fn select_type(builder: &mut TypesBuilder, name: &str)
    ensures
        builder_choices(*final(builder)) == builder_choices(*old(builder)).push(
            (TypeChoice { name: name@, search: true }),
        ),
{
    builder.select(name);
}

/// `TypesBuilder::negate` of `ignore`: files of the type are left out.
#[verifier::external_body]
fn negate_type(builder: &mut TypesBuilder, name: &str)
    ensures
        builder_choices(*final(builder)) == builder_choices(*old(builder)).push(
            (TypeChoice { name: name@, search: false }),
        ),
{
    builder.negate(name);
}

/// `TypesBuilder::build` of `ignore`: the choices put together, or an error where a type is not
/// known.
#[verifier::external_body]
fn build_types(builder: &TypesBuilder) -> (result: Result<Types, String>)
    ensures
        match result {
            Ok(types) => types_error(builder_choices(*builder)) is None && type_choices(types)
                == builder_choices(*builder),
            Err(message) => types_error(builder_choices(*builder)) == Some(message@),
        },
{
    builder.build().map_err(|error| error.to_string())
}

/// The first place to search that is not there.
pub open spec fn missing_root(roots: Seq<Seq<char>>, exist: Seq<bool>) -> Option<Seq<char>>
    decreases roots.len(),
{
    if roots.len() == 0 {
        None
    } else if !exist[0] {
        Some(roots[0])
    } else {
        missing_root(roots.drop_first(), exist.drop_first())
    }
}

/// The error of the first glob that cannot be read.
pub open spec fn first_glob_error(globs: Seq<Seq<char>>) -> Option<Seq<char>>
    decreases globs.len(),
{
    if globs.len() == 0 {
        None
    } else if too_deep(globs[0]) {
        Some(TOO_DEEP@)
    } else if glob_error(globs[0]) is Some {
        glob_error(globs[0])
    } else {
        first_glob_error(globs.drop_first())
    }
}

/// The choices of types: those to search, and then those to leave out.
pub open spec fn choices_of(names: Seq<Seq<char>>, not_names: Seq<Seq<char>>) -> Seq<TypeChoice> {
    Seq::new(names.len(), |i: int| TypeChoice { name: names[i], search: true }) + Seq::new(
        not_names.len(),
        |i: int| TypeChoice { name: not_names[i], search: false },
    )
}

/// The error of the globs of a command line, where there is one.
pub open spec fn cli_globs_error(cli: Cli) -> Option<Seq<char>> {
    let globs = texts(cli.globs@);
    if globs.len() == 0 {
        None
    } else if first_glob_error(globs) is Some {
        first_glob_error(globs)
    } else {
        globs_error(globs)
    }
}

/// The error of the file types of a command line, where there is one.
pub open spec fn cli_types_error(cli: Cli) -> Option<Seq<char>> {
    let choices = choices_of(texts(cli.type_names@), texts(cli.type_not_names@));
    if choices.len() == 0 {
        None
    } else {
        types_error(choices)
    }
}

/// Why there is no walk, where there is none: a place to search that is not there, a glob that
/// cannot be read, or a file type that is not known.
pub open spec fn walk_error(cli: Cli, exist: Seq<bool>) -> Option<Seq<char>> {
    match missing_root(texts(cli.roots@), exist) {
        Some(root) => Some("search root does not exist: "@ + root),
        None => if cli_globs_error(cli) is Some {
            cli_globs_error(cli)
        } else {
            cli_types_error(cli)
        },
    }
}

/// The walk that a command line asks for.
pub open spec fn plan_of(cli: Cli) -> WalkPlan {
    let globs = texts(cli.globs@);
    let choices = choices_of(texts(cli.type_names@), texts(cli.type_not_names@));
    WalkPlan {
        roots: texts(cli.roots@),
        follow_links: cli.follow_links,
        skip_hidden: !cli.hidden,
        heed_ignore_files: !cli.no_ignore,
        require_git: false,
        in_path_order: true,
        globs: if globs.len() == 0 {
            None
        } else {
            Some(globs)
        },
        types: if choices.len() == 0 {
            None
        } else {
            Some(choices)
        },
    }
}

/// The first place to search that is not there, with what is said of it.
fn check_roots(roots: &Vec<String>, exist: &Vec<bool>) -> (result: Result<(), String>)
    requires
        exist@.len() == roots@.len(),
    ensures
        match result {
            Ok(()) => missing_root(texts(roots@), exist@) is None,
            Err(message) => match missing_root(texts(roots@), exist@) {
                Some(root) => message@ == "search root does not exist: "@ + root,
                None => false,
            },
        },
{
    let mut at: usize = 0;
    let ghost all = texts(roots@);
    assert(all.skip(0) == all);
    assert(exist@.skip(0) == exist@);
    while at < roots.len()
        invariant
            all == texts(roots@),
            exist@.len() == roots@.len(),
            at <= roots@.len(),
            missing_root(all, exist@) == missing_root(all.skip(at as int), exist@.skip(at as int)),
        decreases roots@.len() - at,
    {
        assert(all.skip(at as int)[0] == roots@[at as int]@);
        assert(exist@.skip(at as int)[0] == exist@[at as int]);
        if !exist[at] {
            let mut message = "search root does not exist: ".to_owned();
            message.append(roots[at].as_str());
            return Err(message);
        }
        assert(all.skip(at as int).drop_first() == all.skip(at + 1));
        assert(exist@.skip(at as int).drop_first() == exist@.skip(at + 1));
        at = at + 1;
    }
    Ok(())
}

/// The globs of a command line, put together.
fn overrides_of(globs: &Vec<String>) -> (result: Result<Override, String>)
    ensures
        match result {
            Ok(overrides) => first_glob_error(texts(globs@)) is None && globs_error(texts(globs@)) is None
                && override_globs(overrides) == texts(globs@),
            Err(message) => if first_glob_error(texts(globs@)) is Some {
                first_glob_error(texts(globs@)) == Some(message@)
            } else {
                globs_error(texts(globs@)) == Some(message@)
            },
        },
{
    let mut builder = new_overrides();
    let ghost all = texts(globs@);
    let mut at: usize = 0;
    assert(all.skip(0) == all);
    assert(all.take(0) == Seq::<Seq<char>>::empty());
    while at < globs.len()
        invariant
            all == texts(globs@),
            at <= globs@.len(),
            builder_globs(builder) == all.take(at as int),
            first_glob_error(all) == first_glob_error(all.skip(at as int)),
        decreases globs@.len() - at,
    {
        assert(all.skip(at as int)[0] == globs@[at as int]@);
        assert(all.skip(at as int).drop_first() == all.skip(at + 1));
        assert(all.take(at + 1) == all.take(at as int).push(globs@[at as int]@));
        if is_too_deep(globs[at].as_str()) {
            return Err(TOO_DEEP.to_owned());
        }
        match add_glob(&mut builder, globs[at].as_str()) {
            Ok(()) => {},
            Err(message) => return Err(message),
        }
        at = at + 1;
    }
    assert(all.take(at as int) == all);
    build_overrides(&builder)
}

/// The file types of a command line, put together.
fn types_of(names: &Vec<String>, not_names: &Vec<String>) -> (result: Result<Types, String>)
    ensures
        match result {
            Ok(types) => types_error(choices_of(texts(names@), texts(not_names@))) is None
                && type_choices(types) == choices_of(texts(names@), texts(not_names@)),
            Err(message) => types_error(choices_of(texts(names@), texts(not_names@))) == Some(
                message@,
            ),
        },
{
    let mut builder = new_types();
    let ghost all = choices_of(texts(names@), texts(not_names@));
    let mut at: usize = 0;
    assert(all.take(0) == Seq::<TypeChoice>::empty());
    while at < names.len()
        invariant
            all == choices_of(texts(names@), texts(not_names@)),
            at <= names@.len(),
            builder_choices(builder) == all.take(at as int),
        decreases names@.len() - at,
    {
        select_type(&mut builder, names[at].as_str());
        assert(all[at as int] == (TypeChoice { name: names@[at as int]@, search: true }));
        assert(all.take(at + 1) == all.take(at as int).push(all[at as int]));
        at = at + 1;
    }
    let ghost chosen = names@.len();
    let mut index: usize = 0;
    while index < not_names.len()
        invariant
            all == choices_of(texts(names@), texts(not_names@)),
            chosen == names@.len(),
            index <= not_names@.len(),
            builder_choices(builder) == all.take(chosen + index),
        decreases not_names@.len() - index,
    {
        negate_type(&mut builder, not_names[index].as_str());
        assert(all[chosen + index] == (TypeChoice {
            name: not_names@[index as int]@,
            search: false,
        }));
        assert(all.take(chosen + index + 1) == all.take(chosen + index).push(all[chosen + index]));
        index = index + 1;
    }
    assert(all.take(chosen + index) == all);
    build_types(&builder)
}

/// The walk that a command line asks for. `roots_exist` tells of each place to search whether it is
/// there.
pub fn build_walk_builder(cli: &Cli, roots_exist: &Vec<bool>) -> (result: Result<
    WalkBuilder,
    String,
>)
    requires
        cli.roots@.len() > 0,
        roots_exist@.len() == cli.roots@.len(),
    ensures
        match result {
            Ok(builder) => walk_error(*cli, roots_exist@) is None && walk_plan(builder) == plan_of(
                *cli,
            ),
            Err(message) => walk_error(*cli, roots_exist@) == Some(message@),
        },
{
    match check_roots(&cli.roots, roots_exist) {
        Ok(()) => {},
        Err(message) => return Err(message),
    }
    let ghost roots = texts(cli.roots@);
    let mut builder = new_walk(cli.roots[0].as_str());
    assert(seq![roots[0]] == roots.take(1));
    let ghost first = walk_plan(builder);
    let mut at: usize = 1;
    while at < cli.roots.len()
        invariant
            roots == texts(cli.roots@),
            1 <= at <= cli.roots@.len(),
            walk_plan(builder) == (WalkPlan { roots: roots.take(at as int), ..first }),
        decreases cli.roots@.len() - at,
    {
        add_root(&mut builder, cli.roots[at].as_str());
        assert(roots.take(at + 1) == roots.take(at as int).push(roots[at as int]));
        at = at + 1;
    }
    assert(roots.take(at as int) == roots);
    set_follow_links(&mut builder, cli.follow_links);
    set_path_order(&mut builder);
    if cli.hidden {
        set_skip_hidden(&mut builder, false);
    }
    if cli.no_ignore {
        set_heed_ignore_files(&mut builder, false);
    }
    assert(texts(cli.globs@).len() == cli.globs@.len());
    if cli.globs.len() > 0 {
        match overrides_of(&cli.globs) {
            Ok(overrides) => set_overrides(&mut builder, overrides),
            Err(message) => return Err(message),
        }
    }
    assert(choices_of(texts(cli.type_names@), texts(cli.type_not_names@)).len()
        == cli.type_names@.len() + cli.type_not_names@.len());
    if cli.type_names.len() > 0 || cli.type_not_names.len() > 0 {
        match types_of(&cli.type_names, &cli.type_not_names) {
            Ok(types) => set_types(&mut builder, types),
            Err(message) => return Err(message),
        }
    }
    set_require_git(&mut builder, false);
    Ok(builder)
}

} // verus!
