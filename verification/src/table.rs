//! The fixed prefix-to-provider classification table.
//!
//! Each entry maps a dotted-decimal prefix string to a pre-formatted record
//! `"<asn_code> <provider_name> [<quality_label>]"`. A prefix matches an
//! address by plain textual `starts_with`, not by numeric subnet rules.
//!
//! Lookup policy: first match wins, in the table's stable insertion order.
//! Prefixes of different lengths can both match one address; the table is
//! ordered with the longer, more specific prefixes first, so the first match
//! is also the most specific one.

use vstd::prelude::*;

verus! {

/// One table entry: a dotted-decimal prefix and its provider record.
pub ghost struct EntryV {
    pub prefix: Seq<char>,
    pub info: Seq<char>,
}

/// Exec counterpart of [`EntryV`].
pub struct Entry {
    pub prefix: String,
    pub info: String,
}

impl DeepView for Entry {
    type V = EntryV;

    open spec fn deep_view(&self) -> EntryV {
        EntryV { prefix: self.prefix@, info: self.info@ }
    }
}

/// The classification table, immutable once built.
pub struct Table {
    pub entries: Vec<Entry>,
}

impl DeepView for Table {
    type V = Seq<EntryV>;

    open spec fn deep_view(&self) -> Seq<EntryV> {
        self.entries.deep_view()
    }
}

/// `p` is a textual prefix of `s`.
pub open spec fn is_prefix_of(p: Seq<char>, s: Seq<char>) -> bool {
    p.len() <= s.len() && s.subrange(0, p.len() as int) == p
}

/// First-match-wins lookup of `ip` against the entries, in order.
pub open spec fn lookup_spec(entries: Seq<EntryV>, ip: Seq<char>) -> Option<Seq<char>>
    decreases entries.len(),
{
    if entries.len() == 0 {
        None
    } else if is_prefix_of(entries[0].prefix, ip) {
        Some(entries[0].info)
    } else {
        lookup_spec(entries.skip(1), ip)
    }
}

/// The table contents, in insertion order.
pub open spec fn table_spec() -> Seq<EntryV> {
    seq![
        EntryV { prefix: "59.43"@, info: "AS4809 电信CN2  [优质线路]"@ },
        EntryV { prefix: "202.97"@, info: "AS4134 电信163  [普通线路]"@ },
        EntryV { prefix: "218.105"@, info: "AS9929 联通9929 [优质线路]"@ },
        EntryV { prefix: "210.51"@, info: "AS9929 联通9929 [优质线路]"@ },
        EntryV { prefix: "219.158"@, info: "AS4837 联通4837 [普通线路]"@ },
        EntryV { prefix: "223.120.19"@, info: "AS58807 移动CMIN2[优质线路]"@ },
        EntryV { prefix: "223.120.17"@, info: "AS58807 移动CMIN2[优质线路]"@ },
        EntryV { prefix: "223.120.16"@, info: "AS58807 移动CMIN2[优质线路]"@ },
        EntryV { prefix: "223.118"@, info: "AS58453 移动CMI  [普通线路]"@ },
        EntryV { prefix: "223.119"@, info: "AS58453 移动CMI  [普通线路]"@ },
        EntryV { prefix: "223.120"@, info: "AS58453 移动CMI  [普通线路]"@ },
        EntryV { prefix: "223.121"@, info: "AS58453 移动CMI  [普通线路]"@ },
    ]
}

/// Build the classification table.
pub fn asn_table() -> (t: Table)
    ensures
        t.deep_view() == table_spec(),
{
    let mut entries: Vec<Entry> = Vec::new();
    entries.push(
        Entry { prefix: String::from_str("59.43"), info: String::from_str("AS4809 电信CN2  [优质线路]") },
    );
    entries.push(
        Entry { prefix: String::from_str("202.97"), info: String::from_str("AS4134 电信163  [普通线路]") },
    );
    entries.push(
        Entry { prefix: String::from_str("218.105"), info: String::from_str("AS9929 联通9929 [优质线路]") },
    );
    entries.push(
        Entry { prefix: String::from_str("210.51"), info: String::from_str("AS9929 联通9929 [优质线路]") },
    );
    entries.push(
        Entry { prefix: String::from_str("219.158"), info: String::from_str("AS4837 联通4837 [普通线路]") },
    );
    entries.push(
        Entry {
            prefix: String::from_str("223.120.19"),
            info: String::from_str("AS58807 移动CMIN2[优质线路]"),
        },
    );
    entries.push(
        Entry {
            prefix: String::from_str("223.120.17"),
            info: String::from_str("AS58807 移动CMIN2[优质线路]"),
        },
    );
    entries.push(
        Entry {
            prefix: String::from_str("223.120.16"),
            info: String::from_str("AS58807 移动CMIN2[优质线路]"),
        },
    );
    entries.push(
        Entry {
            prefix: String::from_str("223.118"),
            info: String::from_str("AS58453 移动CMI  [普通线路]"),
        },
    );
    entries.push(
        Entry {
            prefix: String::from_str("223.119"),
            info: String::from_str("AS58453 移动CMI  [普通线路]"),
        },
    );
    entries.push(
        Entry {
            prefix: String::from_str("223.120"),
            info: String::from_str("AS58453 移动CMI  [普通线路]"),
        },
    );
    entries.push(
        Entry {
            prefix: String::from_str("223.121"),
            info: String::from_str("AS58453 移动CMI  [普通线路]"),
        },
    );
    let t = Table { entries };
    proof {
        assert(t.deep_view() =~~= table_spec());
    }
    t
}

/// `p` is a textual prefix of `s`, examined character by character.
pub fn str_starts_with(s: &str, p: &str) -> (r: bool)
    ensures
        r == is_prefix_of(p@, s@),
{
    let pn = p.unicode_len();
    let sn = s.unicode_len();
    if pn > sn {
        return false;
    }
    let mut k: usize = 0;
    while k < pn
        invariant
            k <= pn,
            pn == p@.len(),
            sn == s@.len(),
            pn <= sn,
            forall|j: int| 0 <= j < k ==> s@[j] == p@[j],
        decreases pn - k,
    {
        if s.get_char(k) != p.get_char(k) {
            proof {
                assert(s@.subrange(0, pn as int)[k as int] == s@[k as int]);
            }
            return false;
        }
        k = k + 1;
    }
    proof {
        assert(s@.subrange(0, pn as int) =~= p@);
    }
    true
}

/// Look up the record for a detected address: the first entry, in table
/// order, whose prefix is a textual prefix of `ip`; `None` when no prefix
/// matches.
pub fn get_asn(table: &Table, ip: &str) -> (r: Option<String>)
    ensures
        r.deep_view() == lookup_spec(table.deep_view(), ip@),
{
    let n = table.entries.len();
    let mut k: usize = 0;
    proof {
        assert(table.deep_view().skip(0) =~= table.deep_view());
    }
    while k < n
        invariant
            k <= n,
            n == table.entries.len(),
            lookup_spec(table.deep_view(), ip@) == lookup_spec(
                table.deep_view().skip(k as int),
                ip@,
            ),
        decreases n - k,
    {
        let e = &table.entries[k];
        proof {
            assert(table.deep_view().skip(k as int)[0] == table.deep_view()[k as int]);
        }
        if str_starts_with(ip, e.prefix.as_str()) {
            return Some(e.info.clone());
        }
        proof {
            assert(table.deep_view().skip(k as int).skip(1) =~= table.deep_view().skip(
                k + 1,
            ));
        }
        k = k + 1;
    }
    proof {
        assert(table.deep_view().skip(n as int) =~= Seq::<EntryV>::empty());
    }
    None
}

/// Classification is idempotent: the table is immutable, so two lookups of
/// the same address yield the same record.
pub proof fn lemma_lookup_idempotent(
    entries: Seq<EntryV>,
    ip: Seq<char>,
    r1: Option<Seq<char>>,
    r2: Option<Seq<char>>,
)
    requires
        r1 == lookup_spec(entries, ip),
        r2 == lookup_spec(entries, ip),
    ensures
        r1 == r2,
{
}

} // verus!
