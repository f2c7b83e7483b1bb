//! Request and response payloads of the map-statistics endpoints, with
//! their semantic validation rules and the grouping of query rows.
use vstd::prelude::*;

use crate::error::{FieldError, ValidationErrors};
use crate::openid::OpenIDParams;
use crate::strutil::str_eq;
use crate::validation::{violations_view, Validate};

verus! {

/// Body of a played-map report. Tiers range over 1 to 10 and the top tier
/// may exceed the bottom tier by at most 2.
#[derive(Debug)]
pub struct ReportPlayedMapBody {
    pub server: String,
    pub map: String,
    pub mode: String,
    pub bottom_tier: i16,
    pub top_tier: i16,
}

/// Query for current maps. Tiers range over 1 to 10 and the maximum tier
/// must not be below the minimum tier.
#[derive(Debug)]
pub struct GetCurrentMapsQuery {
    pub server: String,
    pub min_tier: i16,
    pub max_tier: i16,
}

/// Response of a successful authentication: the signed session token.
#[derive(Debug)]
pub struct AuthenticateResponse {
    pub token: String,
}

pub open spec fn cond_violation(broken: bool, field: Seq<char>, code: Seq<char>) -> Seq<
    (Seq<char>, Seq<char>),
> {
    if broken {
        seq![(field, code)]
    } else {
        Seq::empty()
    }
}

fn push_violation(errs: &mut Vec<FieldError>, field: &str, code: &str)
    ensures
        violations_view(final(errs)@) == violations_view(old(errs)@) + cond_violation(
            true,
            field@,
            code@,
        ),
{
    errs.push(FieldError { field: field.to_owned(), code: code.to_owned() });
    proof {
        assert(violations_view(errs@) =~= violations_view(old(errs)@) + cond_violation(
            true,
            field@,
            code@,
        ));
    }
}

impl Validate for ReportPlayedMapBody {
    open spec fn valid(&self) -> bool {
        &&& self.server@.len() <= 10
        &&& self.map@.len() <= 50
        &&& self.mode@.len() <= 50
        &&& 1 <= self.bottom_tier <= 10
        &&& 1 <= self.top_tier <= 10
        &&& 0 <= self.top_tier - self.bottom_tier <= 2
    }

    open spec fn spec_violations(&self) -> Seq<(Seq<char>, Seq<char>)> {
        cond_violation(self.server@.len() > 10, "server"@, "length"@) + cond_violation(
            self.map@.len() > 50,
            "map"@,
            "length"@,
        ) + cond_violation(self.mode@.len() > 50, "mode"@, "length"@) + cond_violation(
            !(1 <= self.bottom_tier <= 10),
            "bottom_tier"@,
            "range"@,
        ) + cond_violation(!(1 <= self.top_tier <= 10), "top_tier"@, "range"@) + cond_violation(
            !(0 <= self.top_tier - self.bottom_tier <= 2),
            "__all__"@,
            "Invalid tier spread."@,
        )
    }

    fn validate(&self) -> (r: Result<(), ValidationErrors>) {
        let mut errs: Vec<FieldError> = Vec::new();
        proof {
            assert(violations_view(errs@) =~= Seq::<(Seq<char>, Seq<char>)>::empty());
        }
        if self.server.as_str().unicode_len() > 10 {
            push_violation(&mut errs, "server", "length");
        }
        if self.map.as_str().unicode_len() > 50 {
            push_violation(&mut errs, "map", "length");
        }
        if self.mode.as_str().unicode_len() > 50 {
            push_violation(&mut errs, "mode", "length");
        }
        if !(1 <= self.bottom_tier && self.bottom_tier <= 10) {
            push_violation(&mut errs, "bottom_tier", "range");
        }
        if !(1 <= self.top_tier && self.top_tier <= 10) {
            push_violation(&mut errs, "top_tier", "range");
        }
        let spread = (self.top_tier as i32) - (self.bottom_tier as i32);
        if !(0 <= spread && spread <= 2) {
            push_violation(&mut errs, "__all__", "Invalid tier spread.");
        }
        proof {
            assert(violations_view(errs@) =~= self.spec_violations());
        }
        if errs.len() == 0 {
            proof {
                assert(self.spec_violations() =~= Seq::<(Seq<char>, Seq<char>)>::empty());
            }
            Ok(())
        } else {
            Err(ValidationErrors { errors: errs })
        }
    }
}

impl Validate for GetCurrentMapsQuery {
    open spec fn valid(&self) -> bool {
        &&& self.server@.len() <= 10
        &&& 1 <= self.min_tier <= 10
        &&& 1 <= self.max_tier <= 10
        &&& self.min_tier <= self.max_tier
    }

    open spec fn spec_violations(&self) -> Seq<(Seq<char>, Seq<char>)> {
        cond_violation(self.server@.len() > 10, "server"@, "length"@) + cond_violation(
            !(1 <= self.min_tier <= 10),
            "min_tier"@,
            "range"@,
        ) + cond_violation(!(1 <= self.max_tier <= 10), "max_tier"@, "range"@) + cond_violation(
            self.min_tier > self.max_tier,
            "__all__"@,
            "Invalid tier range."@,
        )
    }

    fn validate(&self) -> (r: Result<(), ValidationErrors>) {
        let mut errs: Vec<FieldError> = Vec::new();
        proof {
            assert(violations_view(errs@) =~= Seq::<(Seq<char>, Seq<char>)>::empty());
        }
        if self.server.as_str().unicode_len() > 10 {
            push_violation(&mut errs, "server", "length");
        }
        if !(1 <= self.min_tier && self.min_tier <= 10) {
            push_violation(&mut errs, "min_tier", "range");
        }
        if !(1 <= self.max_tier && self.max_tier <= 10) {
            push_violation(&mut errs, "max_tier", "range");
        }
        if self.min_tier > self.max_tier {
            push_violation(&mut errs, "__all__", "Invalid tier range.");
        }
        proof {
            assert(violations_view(errs@) =~= self.spec_violations());
        }
        if errs.len() == 0 {
            proof {
                assert(self.spec_violations() =~= Seq::<(Seq<char>, Seq<char>)>::empty());
            }
            Ok(())
        } else {
            Err(ValidationErrors { errors: errs })
        }
    }
}

impl Validate for OpenIDParams {
    /// An assertion carries no field constraints of its own; the provider
    /// is the judge of its contents.
    open spec fn valid(&self) -> bool {
        true
    }

    open spec fn spec_violations(&self) -> Seq<(Seq<char>, Seq<char>)> {
        Seq::empty()
    }

    fn validate(&self) -> (r: Result<(), ValidationErrors>) {
        Ok(())
    }
}

/// One row of the current-maps query.
#[derive(Debug)]
pub struct CurrentMap {
    pub map: String,
    pub mode: String,
    pub count: Option<i64>,
}

impl CurrentMap {
    /// Field-for-field copy.
    pub fn duplicate(&self) -> (r: CurrentMap)
        ensures
            r == *self,
    {
        CurrentMap { map: self.map.clone(), mode: self.mode.clone(), count: self.count }
    }
}

/// Current maps grouped by game mode, in order of first appearance.
#[derive(Debug)]
pub struct CurrentMaps {
    pub modes: Vec<(String, Vec<CurrentMap>)>,
}

/// One row of the current-servers query.
#[derive(Debug)]
pub struct CurrentServer {
    pub name: String,
    pub region: String,
    pub count: Option<i64>,
}

impl CurrentServer {
    /// Field-for-field copy.
    pub fn duplicate(&self) -> (r: CurrentServer)
        ensures
            r == *self,
    {
        CurrentServer { name: self.name.clone(), region: self.region.clone(), count: self.count }
    }
}

/// Current servers grouped by region, in order of first appearance.
#[derive(Debug)]
pub struct CurrentServers {
    pub regions: Vec<(String, Vec<CurrentServer>)>,
}

/// Key-and-rows views of a grouping, generic over the row type.
pub open spec fn groups_view<R>(m: Seq<(String, Vec<R>)>) -> Seq<(Seq<char>, Seq<R>)> {
    m.map_values(|p: (String, Vec<R>)| (p.0@, p.1@))
}

/// First group with key `key` at or after `i`, or `-1`.
pub open spec fn find_group<R>(acc: Seq<(Seq<char>, Seq<R>)>, key: Seq<char>, i: int) -> int
    decreases acc.len() - i,
{
    if i < 0 || i >= acc.len() {
        -1
    } else if acc[i].0 == key {
        i
    } else {
        find_group(acc, key, i + 1)
    }
}

proof fn lemma_find_group_at<R>(acc: Seq<(Seq<char>, Seq<R>)>, key: Seq<char>, at: int)
    requires
        0 <= at <= acc.len(),
        forall|m: int| 0 <= m < at ==> (#[trigger] acc[m]).0 != key,
        at == acc.len() || acc[at].0 == key,
    ensures
        find_group(acc, key, 0) == if at == acc.len() {
            -1
        } else {
            at
        },
{
    lemma_find_group_from(acc, key, 0, at);
}

proof fn lemma_find_group_from<R>(acc: Seq<(Seq<char>, Seq<R>)>, key: Seq<char>, from: int, at: int)
    requires
        0 <= from <= at <= acc.len(),
        forall|m: int| from <= m < at ==> (#[trigger] acc[m]).0 != key,
        at == acc.len() || acc[at].0 == key,
    ensures
        find_group(acc, key, from) == if at == acc.len() {
            -1
        } else {
            at
        },
    decreases at - from,
{
    if from < at {
        lemma_find_group_from(acc, key, from + 1, at);
    }
}

/// Index of the group with key `key`, or `None` if no group has it yet.
fn find_key_index<R>(groups: &Vec<(String, Vec<R>)>, key: &str) -> (r: Option<usize>)
    ensures
        match r {
            Some(j) => j < groups@.len() && find_group(groups_view(groups@), key@, 0) == j,
            None => find_group(groups_view(groups@), key@, 0) == -1,
        },
{
    let m = groups.len();
    let mut j: usize = 0;
    while j < m
        invariant
            j <= m == groups@.len(),
            forall|t: int| 0 <= t < j ==> (#[trigger] groups_view(groups@)[t]).0 != key@,
        decreases m - j,
    {
        if str_eq(groups[j].0.as_str(), key) {
            proof {
                assert(groups_view(groups@)[j as int].0 == groups@[j as int].0@);
                lemma_find_group_at(groups_view(groups@), key@, j as int);
            }
            return Some(j);
        }
        proof {
            assert(groups_view(groups@)[j as int].0 == groups@[j as int].0@);
        }
        j = j + 1;
    }
    proof {
        lemma_find_group_at(groups_view(groups@), key@, m as int);
    }
    None
}

/// Inserts one row into a grouping: appended to its key's group if that key
/// is present, else opening a new group at the end.
pub open spec fn group_insert<R>(
    acc: Seq<(Seq<char>, Seq<R>)>,
    key: Seq<char>,
    row: R,
) -> Seq<(Seq<char>, Seq<R>)> {
    let k = find_group(acc, key, 0);
    if k < 0 {
        acc.push((key, seq![row]))
    } else {
        acc.update(k, (acc[k].0, acc[k].1.push(row)))
    }
}

/// Grouping of `rows` by key, left to right, starting from `acc`.
pub open spec fn spec_group_maps_from(
    acc: Seq<(Seq<char>, Seq<CurrentMap>)>,
    rows: Seq<CurrentMap>,
) -> Seq<(Seq<char>, Seq<CurrentMap>)>
    decreases rows.len(),
{
    if rows.len() == 0 {
        acc
    } else {
        spec_group_maps_from(group_insert(acc, rows.first().mode@, rows.first()), rows.drop_first())
    }
}

/// Rows grouped by game mode, keys in order of first appearance, rows in
/// their original order within each group.
pub open spec fn spec_group_maps(rows: Seq<CurrentMap>) -> Seq<(Seq<char>, Seq<CurrentMap>)> {
    spec_group_maps_from(Seq::empty(), rows)
}

proof fn lemma_group_maps_from_push(
    acc: Seq<(Seq<char>, Seq<CurrentMap>)>,
    rows: Seq<CurrentMap>,
    row: CurrentMap,
)
    ensures
        spec_group_maps_from(acc, rows.push(row)) == group_insert(
            spec_group_maps_from(acc, rows),
            row.mode@,
            row,
        ),
    decreases rows.len(),
{
    if rows.len() == 0 {
        assert(rows.push(row).first() == row);
        assert(rows.push(row).drop_first() =~= Seq::<CurrentMap>::empty());
        assert(spec_group_maps_from(acc, rows.push(row)) == spec_group_maps_from(
            group_insert(acc, row.mode@, row),
            rows.push(row).drop_first(),
        ));
        assert(spec_group_maps_from(group_insert(acc, row.mode@, row), Seq::<CurrentMap>::empty())
            == group_insert(acc, row.mode@, row));
        assert(spec_group_maps_from(acc, rows) == acc);
    } else {
        let gi = group_insert(acc, rows.first().mode@, rows.first());
        assert(rows.push(row).first() == rows.first());
        assert(rows.push(row).drop_first() =~= rows.drop_first().push(row));
        lemma_group_maps_from_push(gi, rows.drop_first(), row);
        assert(spec_group_maps_from(acc, rows.push(row)) == spec_group_maps_from(
            gi,
            rows.push(row).drop_first(),
        ));
        assert(spec_group_maps_from(acc, rows) == spec_group_maps_from(gi, rows.drop_first()));
    }
}

impl CurrentMaps {
    /// Groups query rows by game mode, keeping both the order of first
    /// appearance of each mode and the row order within a mode.
    pub fn from_rows(rows: Vec<CurrentMap>) -> (r: CurrentMaps)
        ensures
            groups_view(r.modes@) == spec_group_maps(rows@),
    {
        let mut modes: Vec<(String, Vec<CurrentMap>)> = Vec::new();
        let n = rows.len();
        let mut i: usize = 0;
        proof {
            assert(rows@.take(0) =~= Seq::<CurrentMap>::empty());
            assert(groups_view(modes@) =~= Seq::<(Seq<char>, Seq<CurrentMap>)>::empty());
        }
        while i < n
            invariant
                i <= n == rows@.len(),
                groups_view(modes@) == spec_group_maps(rows@.take(i as int)),
            decreases n - i,
        {
            let row = rows[i].duplicate();
            let ghost before = modes@;
            match find_key_index(&modes, row.mode.as_str()) {
                Some(j) => {
                    let mut pair = modes.remove(j);
                    pair.1.push(row);
                    modes.insert(j, pair);
                    proof {
                        assert(modes@ =~= before.update(
                            j as int,
                            (before[j as int].0, modes@[j as int].1),
                        ));
                        assert(groups_view(modes@) =~= group_insert(
                            groups_view(before),
                            rows@[i as int].mode@,
                            rows@[i as int],
                        ));
                    }
                },
                None => {
                    let key = row.mode.clone();
                    let mut group: Vec<CurrentMap> = Vec::new();
                    group.push(row);
                    modes.push((key, group));
                    proof {
                        assert(groups_view(modes@) =~= group_insert(
                            groups_view(before),
                            rows@[i as int].mode@,
                            rows@[i as int],
                        ));
                    }
                },
            }
            proof {
                assert(rows@.take(i + 1).drop_last() =~= rows@.take(i as int));
                assert(rows@.take(i + 1) =~= rows@.take(i as int).push(rows@[i as int]));
                lemma_group_maps_from_push(
                    Seq::empty(),
                    rows@.take(i as int),
                    rows@[i as int],
                );
            }
            i = i + 1;
        }
        proof {
            assert(rows@.take(n as int) =~= rows@);
        }
        CurrentMaps { modes }
    }
}

/// Grouping of `rows` by key, left to right, starting from `acc`.
pub open spec fn spec_group_servers_from(
    acc: Seq<(Seq<char>, Seq<CurrentServer>)>,
    rows: Seq<CurrentServer>,
) -> Seq<(Seq<char>, Seq<CurrentServer>)>
    decreases rows.len(),
{
    if rows.len() == 0 {
        acc
    } else {
        spec_group_servers_from(
            group_insert(acc, rows.first().region@, rows.first()),
            rows.drop_first(),
        )
    }
}

/// Rows grouped by region, keys in order of first appearance, rows in
/// their original order within each group.
pub open spec fn spec_group_servers(rows: Seq<CurrentServer>) -> Seq<
    (Seq<char>, Seq<CurrentServer>),
> {
    spec_group_servers_from(Seq::empty(), rows)
}

proof fn lemma_group_servers_from_push(
    acc: Seq<(Seq<char>, Seq<CurrentServer>)>,
    rows: Seq<CurrentServer>,
    row: CurrentServer,
)
    ensures
        spec_group_servers_from(acc, rows.push(row)) == group_insert(
            spec_group_servers_from(acc, rows),
            row.region@,
            row,
        ),
    decreases rows.len(),
{
    if rows.len() == 0 {
        assert(rows.push(row).first() == row);
        assert(rows.push(row).drop_first() =~= Seq::<CurrentServer>::empty());
        assert(spec_group_servers_from(acc, rows.push(row)) == spec_group_servers_from(
            group_insert(acc, row.region@, row),
            rows.push(row).drop_first(),
        ));
        assert(spec_group_servers_from(
            group_insert(acc, row.region@, row),
            Seq::<CurrentServer>::empty(),
        ) == group_insert(acc, row.region@, row));
        assert(spec_group_servers_from(acc, rows) == acc);
    } else {
        let gi = group_insert(acc, rows.first().region@, rows.first());
        assert(rows.push(row).first() == rows.first());
        assert(rows.push(row).drop_first() =~= rows.drop_first().push(row));
        lemma_group_servers_from_push(gi, rows.drop_first(), row);
        assert(spec_group_servers_from(acc, rows.push(row)) == spec_group_servers_from(
            gi,
            rows.push(row).drop_first(),
        ));
        assert(spec_group_servers_from(acc, rows) == spec_group_servers_from(
            gi,
            rows.drop_first(),
        ));
    }
}

impl CurrentServers {
    /// Groups query rows by region, keeping both the order of first
    /// appearance of each region and the row order within a region.
    pub fn from_rows(rows: Vec<CurrentServer>) -> (r: CurrentServers)
        ensures
            groups_view(r.regions@) == spec_group_servers(rows@),
    {
        let mut regions: Vec<(String, Vec<CurrentServer>)> = Vec::new();
        let n = rows.len();
        let mut i: usize = 0;
        proof {
            assert(rows@.take(0) =~= Seq::<CurrentServer>::empty());
            assert(groups_view(regions@) =~= Seq::<(Seq<char>, Seq<CurrentServer>)>::empty());
        }
        while i < n
            invariant
                i <= n == rows@.len(),
                groups_view(regions@) == spec_group_servers(rows@.take(i as int)),
            decreases n - i,
        {
            let row = rows[i].duplicate();
            let ghost before = regions@;
            match find_key_index(&regions, row.region.as_str()) {
                Some(j) => {
                    let mut pair = regions.remove(j);
                    pair.1.push(row);
                    regions.insert(j, pair);
                    proof {
                        assert(regions@ =~= before.update(
                            j as int,
                            (before[j as int].0, regions@[j as int].1),
                        ));
                        assert(groups_view(regions@) =~= group_insert(
                            groups_view(before),
                            rows@[i as int].region@,
                            rows@[i as int],
                        ));
                    }
                },
                None => {
                    let key = row.region.clone();
                    let mut group: Vec<CurrentServer> = Vec::new();
                    group.push(row);
                    regions.push((key, group));
                    proof {
                        assert(groups_view(regions@) =~= group_insert(
                            groups_view(before),
                            rows@[i as int].region@,
                            rows@[i as int],
                        ));
                    }
                },
            }
            proof {
                assert(rows@.take(i + 1).drop_last() =~= rows@.take(i as int));
                assert(rows@.take(i + 1) =~= rows@.take(i as int).push(rows@[i as int]));
                lemma_group_servers_from_push(
                    Seq::empty(),
                    rows@.take(i as int),
                    rows@[i as int],
                );
            }
            i = i + 1;
        }
        proof {
            assert(rows@.take(n as int) =~= rows@);
        }
        CurrentServers { regions }
    }
}

} // verus!
