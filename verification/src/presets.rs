//! Named crop presets: the built-in table, merging it with externally
//! stored custom presets, and looking a preset up by name. The preset store
//! itself is an outside collaborator: whoever persists it hands the entries
//! in as plain name/rectangle-string pairs.

use vstd::prelude::*;
use vstd::string::StringExecFns;

use crate::region::parse_crop_region_spec;

verus! {

/// The entries as mathematical pairs of character sequences.
pub open spec fn pairs_view(ps: Seq<(String, String)>) -> Seq<(Seq<char>, Seq<char>)> {
    ps.map_values(|p: (String, String)| (p.0@, p.1@))
}

/// The mapping an entry list denotes: later entries override earlier ones.
pub open spec fn to_map(ps: Seq<(Seq<char>, Seq<char>)>) -> Map<Seq<char>, Seq<char>>
    decreases ps.len(),
{
    if ps.len() == 0 {
        Map::empty()
    } else {
        to_map(ps.drop_last()).insert(ps.last().0, ps.last().1)
    }
}

/// No preset name appears twice.
pub open spec fn keys_unique(ps: Seq<(Seq<char>, Seq<char>)>) -> bool {
    forall|i: int, j: int| 0 <= i < j < ps.len() ==> (#[trigger] ps[i]).0 != (#[trigger] ps[j]).0
}

/// The built-in presets: common screen resolutions and a few window sizes.
pub open spec fn builtin_presets_spec() -> Seq<(Seq<char>, Seq<char>)> {
    seq![
        ("1080p"@, "0,0,1920,1080"@),
        ("720p"@, "0,0,1280,720"@),
        ("4k"@, "0,0,3840,2160"@),
        ("naver-series"@, "607,23,690,1007"@),
        ("vm-small"@, "100,100,1024,768"@),
        ("vm-medium"@, "100,100,1280,800"@),
        ("vm-large"@, "100,100,1920,1080"@),
    ]
}

/// The built-in preset names are pairwise distinct.
pub proof fn lemma_builtin_keys_unique()
    ensures
        keys_unique(builtin_presets_spec()),
{
    reveal_strlit("1080p");
    reveal_strlit("720p");
    reveal_strlit("4k");
    reveal_strlit("naver-series");
    reveal_strlit("vm-small");
    reveal_strlit("vm-medium");
    reveal_strlit("vm-large");
    let ps = builtin_presets_spec();
    assert(("1080p"@).len() == 5);
    assert(("720p"@).len() == 4);
    assert(("4k"@).len() == 2);
    assert(("naver-series"@).len() == 12);
    assert(("vm-small"@).len() == 8);
    assert(("vm-medium"@).len() == 9);
    assert(("vm-large"@).len() == 8);
    assert(("vm-small"@)[3] == 's' && ("vm-large"@)[3] == 'l');
    assert forall|i: int, j: int| 0 <= i < j < ps.len() implies (#[trigger] ps[i]).0 != (
    #[trigger] ps[j]).0 by {
        assert(ps.len() == 7);
        assert(ps[0].0 == "1080p"@ && ps[1].0 == "720p"@ && ps[2].0 == "4k"@ && ps[3].0
            == "naver-series"@ && ps[4].0 == "vm-small"@ && ps[5].0 == "vm-medium"@ && ps[6].0
            == "vm-large"@);
    }
}

/// Appending an entry inserts its pair into the denoted mapping.
proof fn lemma_to_map_push(ps: Seq<(Seq<char>, Seq<char>)>, k: Seq<char>, v: Seq<char>)
    ensures
        to_map(ps.push((k, v))) == to_map(ps).insert(k, v),
{
    assert(ps.push((k, v)).drop_last() =~= ps);
    assert(ps.push((k, v)).last() == (k, v));
}

/// A key stands in the denoted mapping exactly when some entry carries it.
proof fn lemma_to_map_contains(ps: Seq<(Seq<char>, Seq<char>)>, k: Seq<char>)
    ensures
        to_map(ps).contains_key(k) <==> exists|i: int| 0 <= i < ps.len() && (#[trigger] ps[i]).0
            == k,
    decreases ps.len(),
{
    if ps.len() > 0 {
        lemma_to_map_contains(ps.drop_last(), k);
        if ps.last().0 == k {
            assert(ps[ps.len() - 1].0 == k);
        } else if to_map(ps).contains_key(k) {
            let i = choose|i: int|
                0 <= i < ps.drop_last().len() && (#[trigger] ps.drop_last()[i]).0 == k;
            assert(ps[i].0 == k);
        } else {
            assert(forall|i: int| 0 <= i < ps.len() - 1 ==> ps.drop_last()[i] == ps[i]);
        }
    }
}

/// With unique names, the entry carrying a key decides its value.
proof fn lemma_to_map_index(ps: Seq<(Seq<char>, Seq<char>)>, j: int)
    requires
        keys_unique(ps),
        0 <= j < ps.len(),
    ensures
        to_map(ps).contains_key(ps[j].0),
        to_map(ps)[ps[j].0] == ps[j].1,
    decreases ps.len(),
{
    if j == ps.len() - 1 {
    } else {
        assert(keys_unique(ps.drop_last())) by {
            assert(forall|i: int| 0 <= i < ps.len() - 1 ==> ps.drop_last()[i] == ps[i]);
        }
        assert(ps.drop_last()[j] == ps[j]);
        lemma_to_map_index(ps.drop_last(), j);
        assert(ps.last().0 != ps[j].0);
    }
}

/// With unique names, replacing the value at an entry is an insert on the
/// denoted mapping.
proof fn lemma_to_map_update(ps: Seq<(Seq<char>, Seq<char>)>, j: int, v: Seq<char>)
    requires
        keys_unique(ps),
        0 <= j < ps.len(),
    ensures
        to_map(ps.update(j, (ps[j].0, v))) == to_map(ps).insert(ps[j].0, v),
    decreases ps.len(),
{
    let q = ps.update(j, (ps[j].0, v));
    if j == ps.len() - 1 {
        assert(q.drop_last() =~= ps.drop_last());
        assert(to_map(q) == to_map(ps.drop_last()).insert(ps[j].0, v));
        assert(to_map(ps).insert(ps[j].0, v) =~= to_map(ps.drop_last()).insert(ps[j].0, v));
    } else {
        assert(keys_unique(ps.drop_last())) by {
            assert(forall|i: int| 0 <= i < ps.len() - 1 ==> ps.drop_last()[i] == ps[i]);
        }
        assert(ps.drop_last()[j] == ps[j]);
        lemma_to_map_update(ps.drop_last(), j, v);
        assert(q.drop_last() =~= ps.drop_last().update(j, (ps[j].0, v)));
        assert(q.last() == ps.last());
        assert(ps.last().0 != ps[j].0);
        assert(to_map(ps.drop_last()).insert(ps[j].0, v).insert(ps.last().0, ps.last().1)
            =~= to_map(ps.drop_last()).insert(ps.last().0, ps.last().1).insert(ps[j].0, v));
    }
}

/// The built-in presets: common screen resolutions and a few window sizes,
/// each name bound to its rectangle string.
pub fn get_builtin_presets() -> (r: Vec<(String, String)>)
    ensures
        pairs_view(r@) == builtin_presets_spec(),
        keys_unique(pairs_view(r@)),
{
    let mut out: Vec<(String, String)> = Vec::new();
    out.push((String::from_str("1080p"), String::from_str("0,0,1920,1080")));
    out.push((String::from_str("720p"), String::from_str("0,0,1280,720")));
    out.push((String::from_str("4k"), String::from_str("0,0,3840,2160")));
    out.push((String::from_str("naver-series"), String::from_str("607,23,690,1007")));
    out.push((String::from_str("vm-small"), String::from_str("100,100,1024,768")));
    out.push((String::from_str("vm-medium"), String::from_str("100,100,1280,800")));
    out.push((String::from_str("vm-large"), String::from_str("100,100,1920,1080")));
    proof {
        assert(pairs_view(out@) =~= builtin_presets_spec());
        lemma_builtin_keys_unique();
    }
    out
}

/// All presets: the built-in table with the externally stored custom
/// entries laid over it — a custom preset overrides a built-in one of the
/// same name and otherwise joins the table.
pub fn get_all_presets(custom: &Vec<(String, String)>) -> (r: Vec<(String, String)>)
    ensures
        keys_unique(pairs_view(r@)),
        to_map(pairs_view(r@)) == to_map(builtin_presets_spec()).union_prefer_right(
            to_map(pairs_view(custom@)),
        ),
{
    let ghost cv = pairs_view(custom@);
    let mut out = get_builtin_presets();
    proof {
        assert(cv.subrange(0, 0) =~= Seq::<(Seq<char>, Seq<char>)>::empty());
        assert(to_map(pairs_view(out@)).union_prefer_right(Map::empty()) =~= to_map(
            pairs_view(out@),
        ));
    }
    let n = custom.len();
    let mut i: usize = 0;
    while i < n
        invariant
            cv == pairs_view(custom@),
            n == custom@.len(),
            0 <= i <= n,
            keys_unique(pairs_view(out@)),
            to_map(pairs_view(out@)) == to_map(builtin_presets_spec()).union_prefer_right(
                to_map(cv.subrange(0, i as int)),
            ),
        decreases n - i,
    {
        let ghost before = pairs_view(out@);
        proof {
            assert(cv[i as int] == (custom@[i as int].0@, custom@[i as int].1@));
            assert(cv.subrange(0, i as int + 1).drop_last() =~= cv.subrange(0, i as int));
            assert(cv.subrange(0, i as int + 1).last() == cv[i as int]);
        }
        let m = out.len();
        let mut j: usize = 0;
        let mut found: Option<usize> = None;
        while j < m
            invariant
                before == pairs_view(out@),
                m == out@.len(),
                0 <= j <= m,
                i < n,
                n == custom@.len(),
                match found {
                    Some(jj) => jj < j <= m && before[jj as int].0 == custom@[i as int].0@,
                    None => forall|jj: int|
                        0 <= jj < j ==> (#[trigger] before[jj]).0 != custom@[i as int].0@,
                },
            decreases m - j,
        {
            if found.is_none() {
                proof {
                    assert(before[j as int] == (out@[j as int].0@, out@[j as int].1@));
                }
                if out[j].0 == custom[i].0 {
                    found = Some(j);
                }
            }
            j = j + 1;
        }
        match found {
            Some(jj) => {
                let replacement = (custom[i].0.clone(), custom[i].1.clone());
                proof {
                    lemma_to_map_update(before, jj as int, custom@[i as int].1@);
                }
                out[jj] = replacement;
                proof {
                    assert(pairs_view(out@) =~= before.update(
                        jj as int,
                        (before[jj as int].0, custom@[i as int].1@),
                    ));
                    assert(to_map(builtin_presets_spec()).union_prefer_right(
                        to_map(cv.subrange(0, i as int)),
                    ).insert(custom@[i as int].0@, custom@[i as int].1@) =~= to_map(
                        builtin_presets_spec(),
                    ).union_prefer_right(to_map(cv.subrange(0, i as int + 1))));
                    assert(keys_unique(pairs_view(out@))) by {
                        assert(forall|a: int|
                            0 <= a < before.len() ==> (#[trigger] pairs_view(out@)[a]).0
                                == before[a].0);
                    }
                }
            },
            None => {
                let addition = (custom[i].0.clone(), custom[i].1.clone());
                out.push(addition);
                proof {
                    assert(pairs_view(out@) =~= before.push(
                        (custom@[i as int].0@, custom@[i as int].1@),
                    ));
                    lemma_to_map_push(before, custom@[i as int].0@, custom@[i as int].1@);
                    assert(to_map(builtin_presets_spec()).union_prefer_right(
                        to_map(cv.subrange(0, i as int)),
                    ).insert(custom@[i as int].0@, custom@[i as int].1@) =~= to_map(
                        builtin_presets_spec(),
                    ).union_prefer_right(to_map(cv.subrange(0, i as int + 1))));
                    assert(keys_unique(pairs_view(out@))) by {
                        let pv = pairs_view(out@);
                        assert(forall|a: int| 0 <= a < before.len() ==> (#[trigger] pv[a]).0
                            == before[a].0);
                        assert(pv[pv.len() - 1].0 == custom@[i as int].0@);
                    }
                }
            },
        }
        i = i + 1;
    }
    proof {
        assert(cv.subrange(0, n as int) =~= cv);
    }
    out
}

/// The rectangle string a preset name is bound to, when the table binds it.
pub fn preset_lookup(presets: &Vec<(String, String)>, name: &str) -> (r: Option<String>)
    requires
        keys_unique(pairs_view(presets@)),
    ensures
        match r {
            Some(v) => to_map(pairs_view(presets@)).contains_key(name@) && v@ == to_map(
                pairs_view(presets@),
            )[name@],
            None => !to_map(pairs_view(presets@)).contains_key(name@),
        },
{
    let ghost pv = pairs_view(presets@);
    let wanted = String::from_str(name);
    let n = presets.len();
    let mut j: usize = 0;
    while j < n
        invariant
            pv == pairs_view(presets@),
            keys_unique(pv),
            n == presets@.len(),
            0 <= j <= n,
            wanted@ == name@,
            forall|jj: int| 0 <= jj < j ==> (#[trigger] pv[jj]).0 != name@,
        decreases n - j,
    {
        proof {
            assert(pv[j as int] == (presets@[j as int].0@, presets@[j as int].1@));
        }
        if presets[j].0 == wanted {
            proof {
                lemma_to_map_index(pv, j as int);
            }
            return Some(presets[j].1.clone());
        }
        j = j + 1;
    }
    proof {
        lemma_to_map_contains(pv, name@);
    }
    None
}

/// Parse a rectangle string: comma, colon or space separated fields, of
/// which exactly four must be integers, the third and fourth positive.
pub fn parse_crop_region(crop_str: &str) -> (r: Option<(i32, i32, i32, i32)>)
    ensures
        r == parse_crop_region_spec(crop_str@),
{
    crate::region::parse_crop_region(crop_str)
}

} // verus!
