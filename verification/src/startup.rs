//! What is decided as the kernel starts: which strategy libraries are loaded and in which order, and
//! whether a request for strategies came to anything.
use vstd::prelude::*;
use vstd::string::*;

use crate::config::CoreConfig;
use crate::model;
use crate::text;

verus! {

/// How deep the strategy directory is searched.
pub const MAX_SCAN_DEPTH: usize = 6;

// ---------------------------------------------------------------------------------------------
// Which files are strategy libraries

/// What stands before the first full stop of a text.
pub open spec fn before_dot(s: Seq<char>) -> Seq<char>
    decreases s.len(),
{
    if s.len() == 0 || s[0] == '.' {
        Seq::empty()
    } else {
        seq![s[0]] + before_dot(s.skip(1))
    }
}

/// The stem of a library's file name: without the prefix `lib`, up to the first full stop.
pub open spec fn stem(name: Seq<char>) -> Seq<char> {
    before_dot(
        if text::starts(name, "lib"@) {
            name.skip("lib"@.len() as int)
        } else {
            name
        },
    )
}

/// Whether a name is that of the example strategy's own artifact: its exact stem, or the stem
/// with a build hash. A name that merely ends in it is another strategy's.
pub open spec fn is_example(name: Seq<char>) -> bool {
    stem(name) == "dog_strategy"@ || text::starts(stem(name), "dog_strategy-"@)
}

proof fn lemma_before_dot(s: Seq<char>, n: int)
    requires
        0 <= n <= s.len(),
        forall|j: int| 0 <= j < n ==> #[trigger] s[j] != '.',
        n == s.len() || s[n] == '.',
    ensures
        before_dot(s) == s.take(n),
    decreases n,
{
    if n == 0 {
        assert(s.take(0) =~= Seq::<char>::empty());
    } else {
        lemma_before_dot(s.skip(1), n - 1);
        assert(s.take(n) =~= seq![s[0]] + s.skip(1).take(n - 1));
    }
}

/// The stem of a library's file name.
fn stem_of(name: &str) -> (r: String)
    ensures
        r@ == stem(name@),
{
    let chars = text::chars_of(name);
    let from: usize = if text::starts_with(name, "lib") {
        text::chars_of("lib").len()
    } else {
        0
    };
    let ghost rest = name@.skip(from as int);
    let mut out: Vec<char> = Vec::new();
    let mut i: usize = from;
    while i < chars.len() && chars[i] != '.'
        invariant
            from <= i <= chars@.len(),
            chars@ == name@,
            out@ == name@.subrange(from as int, i as int),
            forall|j: int| from <= j < i ==> #[trigger] chars@[j] != '.',
        decreases chars@.len() - i,
    {
        out.push(chars[i]);
        proof {
            assert(name@.subrange(from as int, i + 1) =~= name@.subrange(
                from as int,
                i as int,
            ).push(name@[i as int]));
        }
        i = i + 1;
    }
    proof {
        lemma_before_dot(rest, i - from);
        assert(rest.take(i - from) =~= name@.subrange(from as int, i as int));
        if from == 0 {
            assert(rest =~= name@);
        }
    }
    text::text_of(&out)
}

/// Whether a name is that of the example strategy's own artifact.
pub fn is_dog_strategy_artifact(name: &str) -> (r: bool)
    ensures
        r == is_example(name@),
{
    let stem = stem_of(name);
    text::same_text(stem.as_str(), "dog_strategy") || text::starts_with(
        stem.as_str(),
        "dog_strategy-",
    )
}

/// Whether a directory may be searched, this deep below the strategy directory.
pub fn may_scan(depth: usize) -> (r: bool)
    ensures
        r == (depth <= MAX_SCAN_DEPTH),
{
    depth <= MAX_SCAN_DEPTH
}

/// Whether a directory is passed over: hidden ones, build directories, and those of strategies
/// that only tests load.
pub open spec fn skips_directory(name: Seq<char>) -> bool {
    text::starts(name, "."@) || name == "deps"@ || name == "build"@ || name == "incremental"@
        || text::occurs(name, "probe"@) || is_example(name) || text::occurs(name, "devcheck"@)
}

/// Whether a directory is passed over.
pub fn is_skipped_directory(name: &str) -> (r: bool)
    ensures
        r == skips_directory(name@),
{
    text::starts_with(name, ".") || text::same_text(name, "deps") || text::same_text(name, "build")
        || text::same_text(name, "incremental") || text::contains(name, "probe")
        || is_dog_strategy_artifact(name) || text::contains(name, "devcheck")
}

/// Whether a file is a library to load: by its extension, and unless only tests load it. A name
/// that is no text is not held against the file.
pub open spec fn loads_file(file_name: Option<Seq<char>>, extension: Option<Seq<char>>) -> bool {
    (extension == Some("dylib"@) || extension == Some("so"@)) && match file_name {
        Some(n) => !(is_example(n) || text::occurs(n, "probe"@) || text::occurs(n, "devcheck"@)),
        None => true,
    }
}

/// Whether a file is a library to load.
pub fn is_loaded_file(file_name: Option<String>, extension: Option<String>) -> (r: bool)
    ensures
        r == loads_file(model::opt_text(file_name), model::opt_text(extension)),
{
    let library = match extension {
        Some(e) => text::same_text(e.as_str(), "dylib") || text::same_text(e.as_str(), "so"),
        None => false,
    };
    library && match file_name {
        Some(n) => !(is_dog_strategy_artifact(n.as_str()) || text::contains(n.as_str(), "probe")
            || text::contains(n.as_str(), "devcheck")),
        None => true,
    }
}

// ---------------------------------------------------------------------------------------------
// The order in which libraries are loaded

/// The rank of a library by its file name: the shipped legs come first, in their own order.
pub open spec fn rank(name: Seq<char>) -> int {
    if text::occurs(name, "spread_arb"@) {
        0
    } else if text::occurs(name, "trend_follow"@) {
        1
    } else if text::occurs(name, "mean_reversion"@) {
        2
    } else {
        3
    }
}

fn rank_of(name: &str) -> (r: u8)
    ensures
        r == rank(name@),
{
    if text::contains(name, "spread_arb") {
        0
    } else if text::contains(name, "trend_follow") {
        1
    } else if text::contains(name, "mean_reversion") {
        2
    } else {
        3
    }
}

/// Whether a path, as the names that lead to it, comes before another one.
pub open spec fn path_before(a: Seq<Seq<char>>, b: Seq<Seq<char>>) -> bool
    decreases a.len(),
{
    if b.len() == 0 {
        false
    } else if a.len() == 0 {
        true
    } else if a[0] == b[0] {
        path_before(a.skip(1), b.skip(1))
    } else {
        text::text_before(a[0], b[0])
    }
}

/// A library below the strategy directory.
#[derive(Debug)]
pub struct LibraryFile {
    /// The names that lead to the file from the strategy directory, the file's own name last.
    pub path: Vec<String>,
}

impl View for LibraryFile {
    type V = Seq<Seq<char>>;

    open spec fn view(&self) -> Seq<Seq<char>> {
        model::texts(self.path@)
    }
}

/// The file name at the end of a path; a path of no name has the empty one.
pub open spec fn file_name(path: Seq<Seq<char>>) -> Seq<char> {
    if path.len() == 0 {
        Seq::empty()
    } else {
        path.last()
    }
}

/// Whether a library is loaded before another one.
pub open spec fn loads_before(a: Seq<Seq<char>>, b: Seq<Seq<char>>) -> bool {
    rank(file_name(a)) < rank(file_name(b)) || (rank(file_name(a)) == rank(file_name(b))
        && path_before(a, b))
}

proof fn lemma_path_before_transitive(a: Seq<Seq<char>>, b: Seq<Seq<char>>, c: Seq<Seq<char>>)
    requires
        path_before(a, b),
        path_before(b, c),
    ensures
        path_before(a, c),
    decreases a.len(),
{
    if a.len() > 0 {
        if a[0] == b[0] && b[0] == c[0] {
            lemma_path_before_transitive(a.skip(1), b.skip(1), c.skip(1));
        } else if a[0] != b[0] && b[0] != c[0] {
            text::lemma_text_before_transitive(a[0], b[0], c[0]);
            if a[0] == c[0] {
                text::lemma_text_before_irreflexive(a[0]);
            }
        }
    }
}

proof fn lemma_path_before_total(a: Seq<Seq<char>>, b: Seq<Seq<char>>)
    ensures
        path_before(a, b) || path_before(b, a) || a == b,
    decreases a.len(),
{
    if a.len() > 0 && b.len() > 0 {
        if a[0] == b[0] {
            lemma_path_before_total(a.skip(1), b.skip(1));
            if a.skip(1) == b.skip(1) {
                assert(a =~= seq![a[0]] + a.skip(1));
                assert(b =~= seq![b[0]] + b.skip(1));
            }
        } else {
            text::lemma_text_before_total(a[0], b[0]);
        }
    } else if a.len() == 0 && b.len() == 0 {
        assert(a =~= b);
    }
}

proof fn lemma_loads_before_transitive(a: Seq<Seq<char>>, b: Seq<Seq<char>>, c: Seq<Seq<char>>)
    requires
        loads_before(a, b),
        loads_before(b, c),
    ensures
        loads_before(a, c),
{
    if rank(file_name(a)) == rank(file_name(c)) {
        lemma_path_before_transitive(a, b, c);
    }
}

fn path_is_before(a: &Vec<String>, b: &Vec<String>) -> (r: bool)
    ensures
        r == path_before(model::texts(a@), model::texts(b@)),
{
    let ghost ta = model::texts(a@);
    let ghost tb = model::texts(b@);
    let mut i: usize = 0;
    proof {
        assert(ta.skip(0) =~= ta);
        assert(tb.skip(0) =~= tb);
    }
    while i < a.len() && i < b.len() && text::same_text(a[i].as_str(), b[i].as_str())
        invariant
            i <= a@.len(),
            i <= b@.len(),
            ta == model::texts(a@),
            tb == model::texts(b@),
            path_before(ta, tb) == path_before(ta.skip(i as int), tb.skip(i as int)),
        decreases a@.len() - i,
    {
        proof {
            assert(ta.skip(i as int)[0] == ta[i as int]);
            assert(tb.skip(i as int)[0] == tb[i as int]);
            assert(ta.skip(i as int).skip(1) =~= ta.skip(i + 1));
            assert(tb.skip(i as int).skip(1) =~= tb.skip(i + 1));
        }
        i = i + 1;
    }
    if i >= b.len() {
        return false;
    }
    if i >= a.len() {
        return true;
    }
    assert(ta.skip(i as int)[0] == ta[i as int]);
    assert(tb.skip(i as int)[0] == tb[i as int]);
    text::is_before(a[i].as_str(), b[i].as_str())
}

fn loads_first(a: &LibraryFile, b: &LibraryFile) -> (r: bool)
    ensures
        r == loads_before(a@, b@),
{
    let ra: u8 = if a.path.len() == 0 {
        rank_of("")
    } else {
        rank_of(a.path[a.path.len() - 1].as_str())
    };
    let rb: u8 = if b.path.len() == 0 {
        rank_of("")
    } else {
        rank_of(b.path[b.path.len() - 1].as_str())
    };
    proof {
        reveal_strlit("");
        assert(""@ =~= Seq::<char>::empty());
        assert(ra == rank(file_name(a@)));
        assert(rb == rank(file_name(b@)));
    }
    ra < rb || (ra == rb && path_is_before(&a.path, &b.path))
}

/// What the paths of a list of libraries are.
pub open spec fn paths(libs: Seq<LibraryFile>) -> Seq<Seq<Seq<char>>> {
    libs.map_values(|l: LibraryFile| l@)
}

/// A list of libraries stands in the order in which they are loaded.
pub open spec fn in_load_order(libs: Seq<Seq<Seq<char>>>) -> bool {
    forall|i: int, j: int|
        0 <= i < j < libs.len() ==> loads_before(#[trigger] libs[i], #[trigger] libs[j])
            || libs[i] == libs[j]
}

/// The place of a library among those that are in order.
fn place_of(sorted: &Vec<LibraryFile>, l: &LibraryFile) -> (r: usize)
    requires
        in_load_order(paths(sorted@)),
    ensures
        r <= sorted@.len(),
        forall|j: int| 0 <= j < r ==> !loads_before(l@, #[trigger] paths(sorted@)[j]),
        forall|j: int| r <= j < sorted@.len() ==> loads_before(l@, #[trigger] paths(sorted@)[j]),
{
    let ghost all = paths(sorted@);
    let mut i: usize = 0;
    while i < sorted.len() && !loads_first(l, &sorted[i])
        invariant
            i <= sorted@.len(),
            all == paths(sorted@),
            forall|j: int| 0 <= j < i ==> !loads_before(l@, #[trigger] all[j]),
        decreases sorted@.len() - i,
    {
        i = i + 1;
    }
    proof {
        if i < sorted@.len() {
            assert forall|j: int| i <= j < sorted@.len() implies loads_before(
                l@,
                #[trigger] all[j],
            ) by {
                assert(loads_before(l@, all[i as int]));
                if j > i && all[i as int] != all[j] {
                    lemma_loads_before_transitive(l@, all[i as int], all[j]);
                }
            }
        }
    }
    i
}

/// Puts libraries into the order in which they are loaded: by rank, then by path.
pub fn load_order(libs: Vec<LibraryFile>) -> (r: Vec<LibraryFile>)
    ensures
        in_load_order(paths(r@)),
        paths(r@).to_multiset() == paths(libs@).to_multiset(),
{
    let ghost given = paths(libs@);
    let mut rest = libs;
    let mut sorted: Vec<LibraryFile> = Vec::new();
    proof {
        assert(paths(sorted@) =~= Seq::empty());
        paths(sorted@).to_multiset_ensures();
        assert(paths(rest@).to_multiset().add(paths(sorted@).to_multiset())
            =~= given.to_multiset());
    }
    while rest.len() > 0
        invariant
            in_load_order(paths(sorted@)),
            paths(rest@).to_multiset().add(paths(sorted@).to_multiset()) == given.to_multiset(),
        decreases rest@.len(),
    {
        let ghost before = paths(rest@);
        let l = rest.pop().unwrap();
        let ghost old_sorted = paths(sorted@);
        let at: usize = place_of(&sorted, &l);
        sorted.insert(at, l);
        proof {
            let now = paths(sorted@);
            assert(now =~= old_sorted.insert(at as int, l@));
            assert(before =~= paths(rest@).push(l@));
            paths(rest@).to_multiset_ensures();
            old_sorted.to_multiset_ensures();
            now.to_multiset_ensures();
            assert(now.remove(at as int) =~= old_sorted);
            assert(now[at as int] == l@);
            assert(now.contains(l@));
            assert(now.to_multiset() =~= old_sorted.to_multiset().insert(l@));
            assert(before.to_multiset() =~= paths(rest@).to_multiset().insert(l@));
            assert(paths(rest@).to_multiset().add(now.to_multiset()) =~= given.to_multiset());
            assert forall|i: int, j: int| 0 <= i < j < now.len() implies loads_before(
                #[trigger] now[i],
                #[trigger] now[j],
            ) || now[i] == now[j] by {
                if i < at && j == at {
                    assert(now[i] == old_sorted[i]);
                    lemma_path_before_total(l@, old_sorted[i]);
                } else if i == at {
                    assert(now[j] == old_sorted[j - 1]);
                } else {
                    let i0 = if i < at {
                        i
                    } else {
                        i - 1
                    };
                    let j0 = if j < at {
                        j
                    } else {
                        j - 1
                    };
                    assert(now[i] == old_sorted[i0]);
                    assert(now[j] == old_sorted[j0]);
                }
            }
        }
    }
    proof {
        assert(paths(rest@) =~= Seq::empty());
        paths(rest@).to_multiset_ensures();
        assert(paths(sorted@).to_multiset() =~= given.to_multiset());
    }
    sorted
}

/// What came of loading a library.
#[derive(Clone, Copy, Debug, PartialEq, Eq, Structural)]
pub enum AutoLoad {
    /// A copy of it was loaded before; the first one stays.
    Duplicate,
    Loaded,
    Failed,
}

/// What a load receipt tells.
pub open spec fn load_verdict(receipt: Seq<char>) -> AutoLoad {
    if text::occurs(receipt, "already registered"@) {
        AutoLoad::Duplicate
    } else if text::occurs(receipt, "registered into the engine dispatch"@) {
        AutoLoad::Loaded
    } else {
        AutoLoad::Failed
    }
}

/// Reads a load receipt. That a name is already taken also says "registered", so the whole phrase
/// of a success is looked for.
pub fn read_load_receipt(receipt: &str) -> (r: AutoLoad)
    ensures
        r == load_verdict(receipt@),
{
    if text::contains(receipt, "already registered") {
        AutoLoad::Duplicate
    } else if text::contains(receipt, "registered into the engine dispatch") {
        AutoLoad::Loaded
    } else {
        AutoLoad::Failed
    }
}

// ---------------------------------------------------------------------------------------------
// The self-check of the request for strategies

/// The names that were asked for and not also switched off.
pub open spec fn asked_for(requested: Seq<Seq<char>>, disabled: Seq<Seq<char>>) -> Seq<Seq<char>>
    decreases requested.len(),
{
    if requested.len() == 0 {
        Seq::empty()
    } else {
        let rest = asked_for(requested.drop_last(), disabled);
        if text::listed(disabled, requested.last()) {
            rest
        } else {
            rest.push(requested.last())
        }
    }
}

/// How many names are among the registered ones.
pub open spec fn resolved_count(names: Seq<Seq<char>>, registered: Seq<Seq<char>>) -> nat
    decreases names.len(),
{
    if names.len() == 0 {
        0
    } else {
        resolved_count(names.drop_last(), registered) + if text::listed(registered, names.last()) {
            1nat
        } else {
            0nat
        }
    }
}

/// Whether a start with these names is refused: some were asked for, none exists, and nobody said
/// that this is meant.
pub open spec fn refuses_start(
    asked: Seq<Seq<char>>,
    registered: Seq<Seq<char>>,
    allow_zero: bool,
) -> bool {
    asked.len() > 0 && resolved_count(asked, registered) == 0 && !allow_zero
}

/// Why a start is refused.
pub open spec fn refusal(
    asked: Seq<Seq<char>>,
    enabled: Seq<Seq<char>>,
    approved_roots: Seq<Seq<char>>,
    allow_env: Seq<char>,
) -> Seq<char> {
    "refusing to start: none of the "@ + text::nat_text(asked.len()) + " explicitly requested strateg"@
        + if asked.len() == 1 {
        "y"@
    } else {
        "ies"@
    } + " resolved to a live strategy ("@ + text::joined(asked, ", "@)
        + "), so this kernel would run with no strategy at all — while reporting itself healthy (the engine's live set is ["@
        + text::joined(enabled, ", "@)
        + "]). Take the libraries from the strategy directory (`--strategy-dir`, `BK_STRATEGY_DIR`, or the default `user_layer/strategies` of the checkout the binary lives in) — every library there is refused unless it sits under an approved strategy root (`"@
        + text::joined(approved_roots, "`, `"@)
        + "` under a repository root, or a directory named in "@ + allow_env
        + ") — or acknowledge the empty set with --allow-zero-strategies. See the `strategy auto-load` lines above for what was rejected and why"@
}

/// The line that states what was asked for, how much of it exists, and what is enabled.
pub open spec fn self_check_line(
    asked: Seq<Seq<char>>,
    registered: Seq<Seq<char>>,
    enabled: Seq<Seq<char>>,
) -> Seq<char> {
    "blitzkrieg-core: strategy startup self-check: requested="@ + text::nat_text(asked.len())
        + " resolved="@ + text::nat_text(resolved_count(asked, registered)) + " enabled=["@
        + text::joined(enabled, ", "@) + "]"@
}

/// What the self-check of the request found.
#[derive(Debug)]
pub struct StartupCheck {
    /// The line for the log; it is written whatever the verdict.
    pub line: String,
    /// Why the start is refused, where it is.
    pub refused: Option<String>,
}

fn count_resolved(names: &Vec<String>, registered: &Vec<String>) -> (r: usize)
    ensures
        r == resolved_count(model::texts(names@), model::texts(registered@)),
        r <= names@.len(),
{
    let ghost all = model::texts(names@);
    let mut n: usize = 0;
    let mut i: usize = 0;
    assert(all.take(0) =~= Seq::empty());
    while i < names.len()
        invariant
            i <= names@.len(),
            all == model::texts(names@),
            n == resolved_count(all.take(i as int), model::texts(registered@)),
            n <= i,
        decreases names@.len() - i,
    {
        assert(all.take(i + 1).drop_last() =~= all.take(i as int));
        if text::is_listed(registered, names[i].as_str()) {
            n = n + 1;
        }
        i = i + 1;
    }
    assert(all.take(i as int) =~= all);
    n
}

impl CoreConfig {
    /// The names that were asked for and not also switched off.
    fn requested_names(&self) -> (r: Vec<String>)
        ensures
            model::texts(r@) == asked_for(self@.requested_strategies, self@.disabled_strategies),
    {
        let ghost all = self@.requested_strategies;
        let mut out: Vec<String> = Vec::new();
        let mut i: usize = 0;
        proof {
            assert(all.take(0) =~= Seq::empty());
            assert(model::texts(out@) =~= Seq::empty());
        }
        while i < self.requested_strategies.len()
            invariant
                i <= self.requested_strategies@.len(),
                all == model::texts(self.requested_strategies@),
                model::texts(out@) == asked_for(all.take(i as int), self@.disabled_strategies),
            decreases self.requested_strategies@.len() - i,
        {
            assert(all.take(i + 1).drop_last() =~= all.take(i as int));
            let name = &self.requested_strategies[i];
            let ghost before = model::texts(out@);
            if !text::is_listed(&self.disabled_strategies, name.as_str()) {
                out.push(name.clone());
                assert(model::texts(out@) =~= before.push(name@));
            }
            i = i + 1;
        }
        assert(all.take(i as int) =~= all);
        out
    }

    /// States what was asked for, what exists and what is enabled, and refuses a start whose
    /// request for strategies came to nothing.
    pub fn strategy_startup_self_check(
        &self,
        registered: &Vec<String>,
        enabled: &Vec<String>,
        approved_roots: &Vec<String>,
        allow_env: &str,
    ) -> (r: StartupCheck)
        ensures
            ({
                let asked = asked_for(self@.requested_strategies, self@.disabled_strategies);
                &&& r.line@ == self_check_line(
                    asked,
                    model::texts(registered@),
                    model::texts(enabled@),
                )
                &&& model::opt_text(r.refused) == if refuses_start(
                    asked,
                    model::texts(registered@),
                    self.allow_zero_strategies,
                ) {
                    Some(
                        refusal(
                            asked,
                            model::texts(enabled@),
                            model::texts(approved_roots@),
                            allow_env@,
                        ),
                    )
                } else {
                    None
                }
            }),
    {
        let asked = self.requested_names();
        let resolved: usize = count_resolved(&asked, registered);
        let live = text::join_all(enabled, ", ");
        let mut line = "blitzkrieg-core: strategy startup self-check: requested=".to_owned();
        line.append(text::write_u64(asked.len() as u64).as_str());
        line.append(" resolved=");
        line.append(text::write_u64(resolved as u64).as_str());
        line.append(" enabled=[");
        line.append(live.as_str());
        line.append("]");
        if asked.len() == 0 || resolved > 0 || self.allow_zero_strategies {
            return StartupCheck { line, refused: None };
        }
        let mut why = "refusing to start: none of the ".to_owned();
        why.append(text::write_u64(asked.len() as u64).as_str());
        why.append(" explicitly requested strateg");
        why.append(
            if asked.len() == 1 {
                "y"
            } else {
                "ies"
            },
        );
        why.append(" resolved to a live strategy (");
        why.append(text::join_all(&asked, ", ").as_str());
        why.append(
            "), so this kernel would run with no strategy at all — while reporting itself healthy (the engine's live set is [",
        );
        why.append(live.as_str());
        why.append(
            "]). Take the libraries from the strategy directory (`--strategy-dir`, `BK_STRATEGY_DIR`, or the default `user_layer/strategies` of the checkout the binary lives in) — every library there is refused unless it sits under an approved strategy root (`",
        );
        why.append(text::join_all(approved_roots, "`, `").as_str());
        why.append("` under a repository root, or a directory named in ");
        why.append(allow_env);
        why.append(
            ") — or acknowledge the empty set with --allow-zero-strategies. See the `strategy auto-load` lines above for what was rejected and why",
        );
        StartupCheck { line, refused: Some(why) }
    }
}

/// A start is refused only where a name was asked for and not also switched off, and where each
/// such name is unknown.
pub proof fn law_a_refused_start_asked_for_unknown_names(
    requested: Seq<Seq<char>>,
    disabled: Seq<Seq<char>>,
    registered: Seq<Seq<char>>,
    allow_zero: bool,
    name: Seq<char>,
)
    requires
        refuses_start(asked_for(requested, disabled), registered, allow_zero),
        text::listed(requested, name),
        text::listed(registered, name),
    ensures
        text::listed(disabled, name),
        !allow_zero,
    decreases requested.len(),
{
    if !text::listed(disabled, name) {
        lemma_asked_for_holds(requested, disabled, name);
        lemma_resolved_some(asked_for(requested, disabled), registered, name);
    }
}

proof fn lemma_asked_for_holds(
    requested: Seq<Seq<char>>,
    disabled: Seq<Seq<char>>,
    name: Seq<char>,
)
    requires
        text::listed(requested, name),
        !text::listed(disabled, name),
    ensures
        text::listed(asked_for(requested, disabled), name),
    decreases requested.len(),
{
    let i = choose|i: int| 0 <= i < requested.len() && #[trigger] requested[i] == name;
    let rest = asked_for(requested.drop_last(), disabled);
    let all = asked_for(requested, disabled);
    if i == requested.len() - 1 {
        assert(all[rest.len() as int] == name);
    } else {
        assert(requested.drop_last()[i] == name);
        lemma_asked_for_holds(requested.drop_last(), disabled, name);
        let j = choose|j: int| 0 <= j < rest.len() && #[trigger] rest[j] == name;
        assert(all[j] == name);
    }
}

proof fn lemma_resolved_some(names: Seq<Seq<char>>, registered: Seq<Seq<char>>, name: Seq<char>)
    requires
        text::listed(names, name),
        text::listed(registered, name),
    ensures
        resolved_count(names, registered) > 0,
    decreases names.len(),
{
    let i = choose|i: int| 0 <= i < names.len() && #[trigger] names[i] == name;
    if i < names.len() - 1 {
        assert(names.drop_last()[i] == name);
        lemma_resolved_some(names.drop_last(), registered, name);
    }
}

} // verus!
