//! Names for JA4 fingerprints.
//!
//! Coverage is partial on purpose: the bundled table holds some thirty well
//! known fingerprints. No answer means that a fingerprint is not in the
//! table, not that the client is suspicious.
//!
//! A user can add names, or correct bundled ones, in an overlay file: a JSON
//! object that maps fingerprints to names. The overlay wins on conflict. One
//! that cannot be read or parsed is reported and ignored.

use std::collections::HashMap;
use vstd::prelude::*;

use crate::text;

verus! {

/// The number of bundled entries.
pub const BUNDLED_LEN: usize = 32;

/// The bundled fingerprints and their names, in ascending order. Clients that
/// share a fingerprint are joined with ` / `.
pub open spec fn entry(i: usize) -> (Seq<char>, Seq<char>) {
    match i {
        0 => ("q13d0312h3_55b375c5d22e_06cda9e17597"@, "Chromium Browser"@),
        1 => ("q13i0311h3_55b375c5d22e_06cda9e17597"@, "Chromium Browser"@),
        2 => ("t12d160700_8cdfa2d4673b_18dd7303c4a5"@, "GoLang"@),
        3 => ("t12d190800_d83cc789557e_16bbda4055b2"@, "Cobalt Strike v4.9.1 beacon [Windows 10]"@),
        4 => ("t12d190800_d83cc789557e_7af1ed941c26"@, "GoLang / WinINET [Windows 10/11]"@),
        5 => ("t12d210800_76e208dd3e22_16bbda4055b2"@, "Cobalt Strike v4.9.1 beacon [Windows 10]"@),
        6 => ("t12d350600_9d4c96c0953b_0a9c83bf8b96"@, "Phillips Hue Bridge"@),
        7 => ("t12d520600_b380db6257eb_0a9c83bf8b96"@, "LIFX Smart Bulbs"@),
        8 => ("t12d8008h1_9cedc1f1428b_046e095b7c4a"@, "Nest"@),
        9 => ("t12i190700_d83cc789557e_16bbda4055b2"@, "Cobalt Strike v4.9.1 beacon [Windows 10]"@),
        10 => ("t12i210700_76e208dd3e22_16bbda4055b2"@, "Cobalt Strike v4.9.1 beacon [Windows 10]"@),
        11 => ("t13d141000_cbb2034c60b8_e7c285222651"@, "GoLang"@),
        12 => ("t13d1412h2_e33ad33b3d25_6b314db333b6"@, "GoLang webhooks"@),
        13 => ("t13d1516h2_8daaf6152771_02713d6af862"@, "Chromium Browser"@),
        14 => ("t13d1517h2_8daaf6152771_b0da82dd1658"@, "Chromium Browser"@),
        15 => ("t13d1517h2_8daaf6152771_b1ff8ab2d16f"@, "Chromium Browser"@),
        16 => ("t13d1715h2_5b57614c22b0_7121afd63204"@, "Mozilla Firefox"@),
        17 => ("t13d181000_85036bcba153_d41ae481755e"@, "Python"@),
        18 => ("t13d190900_9dc949149365_97f8aa674fd9"@, "GoLang / Sliver Agent"@),
        19 => ("t13d191000_9dc949149365_e7c285222651"@, "GoLang net package"@),
        20 => ("t13d201100_2b729b4bf6f3_9e7b989ebec8"@, "IcedID"@),
        21 => ("t13d2014h2_a09f3c656075_14788d8d241b"@, "Safari"@),
        22 => ("t13d4312h1_c7886603b240_b26ce05bbdd6"@, "Python"@),
        23 => ("t13d880900_fcb5b95cb75a_b0d3b4ac2a14"@, "SoftEther VPN Client"@),
        24 => ("t13i1515h2_8daaf6152771_02713d6af862"@, "Chromium Browser"@),
        25 => ("t13i1516h2_8daaf6152771_b0da82dd1658"@, "Chromium Browser"@),
        26 => ("t13i1516h2_8daaf6152771_b1ff8ab2d16f"@, "Chromium Browser"@),
        27 => ("t13i1714h2_5b57614c22b0_7121afd63204"@, "Mozilla Firefox"@),
        28 => ("t13i181000_85036bcba153_d41ae481755e"@, "Python"@),
        29 => ("t13i190800_9dc949149365_97f8aa674fd9"@, "GoLang / Sliver Agent"@),
        30 => ("t13i2013h2_a09f3c656075_14788d8d241b"@, "Safari"@),
        _ => ("t13i880900_fcb5b95cb75a_b0d3b4ac2a14"@, "SoftEther VPN Client"@),
    }
}

/// The fingerprint of a bundled entry.
pub open spec fn key(i: usize) -> Seq<char> {
    entry(i).0
}

/// The bundled entry at position `i`.
pub fn bundled(i: usize) -> (r: (&'static str, &'static str))
    requires
        i < BUNDLED_LEN,
    ensures
        r.0@ == entry(i).0,
        r.1@ == entry(i).1,
{
    match i {
        0 => ("q13d0312h3_55b375c5d22e_06cda9e17597", "Chromium Browser"),
        1 => ("q13i0311h3_55b375c5d22e_06cda9e17597", "Chromium Browser"),
        2 => ("t12d160700_8cdfa2d4673b_18dd7303c4a5", "GoLang"),
        3 => ("t12d190800_d83cc789557e_16bbda4055b2", "Cobalt Strike v4.9.1 beacon [Windows 10]"),
        4 => ("t12d190800_d83cc789557e_7af1ed941c26", "GoLang / WinINET [Windows 10/11]"),
        5 => ("t12d210800_76e208dd3e22_16bbda4055b2", "Cobalt Strike v4.9.1 beacon [Windows 10]"),
        6 => ("t12d350600_9d4c96c0953b_0a9c83bf8b96", "Phillips Hue Bridge"),
        7 => ("t12d520600_b380db6257eb_0a9c83bf8b96", "LIFX Smart Bulbs"),
        8 => ("t12d8008h1_9cedc1f1428b_046e095b7c4a", "Nest"),
        9 => ("t12i190700_d83cc789557e_16bbda4055b2", "Cobalt Strike v4.9.1 beacon [Windows 10]"),
        10 => ("t12i210700_76e208dd3e22_16bbda4055b2", "Cobalt Strike v4.9.1 beacon [Windows 10]"),
        11 => ("t13d141000_cbb2034c60b8_e7c285222651", "GoLang"),
        12 => ("t13d1412h2_e33ad33b3d25_6b314db333b6", "GoLang webhooks"),
        13 => ("t13d1516h2_8daaf6152771_02713d6af862", "Chromium Browser"),
        14 => ("t13d1517h2_8daaf6152771_b0da82dd1658", "Chromium Browser"),
        15 => ("t13d1517h2_8daaf6152771_b1ff8ab2d16f", "Chromium Browser"),
        16 => ("t13d1715h2_5b57614c22b0_7121afd63204", "Mozilla Firefox"),
        17 => ("t13d181000_85036bcba153_d41ae481755e", "Python"),
        18 => ("t13d190900_9dc949149365_97f8aa674fd9", "GoLang / Sliver Agent"),
        19 => ("t13d191000_9dc949149365_e7c285222651", "GoLang net package"),
        20 => ("t13d201100_2b729b4bf6f3_9e7b989ebec8", "IcedID"),
        21 => ("t13d2014h2_a09f3c656075_14788d8d241b", "Safari"),
        22 => ("t13d4312h1_c7886603b240_b26ce05bbdd6", "Python"),
        23 => ("t13d880900_fcb5b95cb75a_b0d3b4ac2a14", "SoftEther VPN Client"),
        24 => ("t13i1515h2_8daaf6152771_02713d6af862", "Chromium Browser"),
        25 => ("t13i1516h2_8daaf6152771_b0da82dd1658", "Chromium Browser"),
        26 => ("t13i1516h2_8daaf6152771_b1ff8ab2d16f", "Chromium Browser"),
        27 => ("t13i1714h2_5b57614c22b0_7121afd63204", "Mozilla Firefox"),
        28 => ("t13i181000_85036bcba153_d41ae481755e", "Python"),
        29 => ("t13i190800_9dc949149365_97f8aa674fd9", "GoLang / Sliver Agent"),
        30 => ("t13i2013h2_a09f3c656075_14788d8d241b", "Safari"),
        _ => ("t13i880900_fcb5b95cb75a_b0d3b4ac2a14", "SoftEther VPN Client"),
    }
}

spec fn agree(a: Seq<char>, b: Seq<char>, k: nat) -> bool
    decreases k,
{
    k == 0 || (agree(a, b, (k - 1) as nat) && a[k - 1] == b[k - 1])
}

proof fn lemma_agree(a: Seq<char>, b: Seq<char>, k: nat, j: int)
    requires
        agree(a, b, k),
        0 <= j < k,
    ensures
        a[j] == b[j],
    decreases k,
{
    if j < k - 1 {
        lemma_agree(a, b, (k - 1) as nat, j);
    }
}

proof fn lemma_less(a: Seq<char>, b: Seq<char>, k: nat)
    requires
        k < a.len(),
        k < b.len(),
        agree(a, b, k),
        a[k as int] < b[k as int],
    ensures
        text::precedes(a, b),
{
    assert forall|j: int| 0 <= j < k implies #[trigger] a[j] == b[j] by {
        lemma_agree(a, b, k, j);
    }
    assert(text::less_at(a, b, k as int));
}

#[verifier::spinoff_prover]
proof fn lemma_neighbours_ascend(i: usize)
    requires
        i + 1 < BUNDLED_LEN,
    ensures
        text::precedes(key(i), key((i + 1) as usize)),
{
    assert(text::precedes(key(0), key(1))) by {
        reveal_strlit("q13d0312h3_55b375c5d22e_06cda9e17597");
        reveal_strlit("q13i0311h3_55b375c5d22e_06cda9e17597");
        reveal_with_fuel(agree, 4);
        lemma_less(key(0), key(1), 3);
    }
    assert(text::precedes(key(1), key(2))) by {
        reveal_strlit("q13i0311h3_55b375c5d22e_06cda9e17597");
        reveal_strlit("t12d160700_8cdfa2d4673b_18dd7303c4a5");
        reveal_with_fuel(agree, 1);
        lemma_less(key(1), key(2), 0);
    }
    assert(text::precedes(key(2), key(3))) by {
        reveal_strlit("t12d160700_8cdfa2d4673b_18dd7303c4a5");
        reveal_strlit("t12d190800_d83cc789557e_16bbda4055b2");
        reveal_with_fuel(agree, 6);
        lemma_less(key(2), key(3), 5);
    }
    assert(text::precedes(key(3), key(4))) by {
        reveal_strlit("t12d190800_d83cc789557e_16bbda4055b2");
        reveal_strlit("t12d190800_d83cc789557e_7af1ed941c26");
        reveal_with_fuel(agree, 25);
        lemma_less(key(3), key(4), 24);
    }
    assert(text::precedes(key(4), key(5))) by {
        reveal_strlit("t12d190800_d83cc789557e_7af1ed941c26");
        reveal_strlit("t12d210800_76e208dd3e22_16bbda4055b2");
        reveal_with_fuel(agree, 5);
        lemma_less(key(4), key(5), 4);
    }
    assert(text::precedes(key(5), key(6))) by {
        reveal_strlit("t12d210800_76e208dd3e22_16bbda4055b2");
        reveal_strlit("t12d350600_9d4c96c0953b_0a9c83bf8b96");
        reveal_with_fuel(agree, 5);
        lemma_less(key(5), key(6), 4);
    }
    assert(text::precedes(key(6), key(7))) by {
        reveal_strlit("t12d350600_9d4c96c0953b_0a9c83bf8b96");
        reveal_strlit("t12d520600_b380db6257eb_0a9c83bf8b96");
        reveal_with_fuel(agree, 5);
        lemma_less(key(6), key(7), 4);
    }
    assert(text::precedes(key(7), key(8))) by {
        reveal_strlit("t12d520600_b380db6257eb_0a9c83bf8b96");
        reveal_strlit("t12d8008h1_9cedc1f1428b_046e095b7c4a");
        reveal_with_fuel(agree, 5);
        lemma_less(key(7), key(8), 4);
    }
    assert(text::precedes(key(8), key(9))) by {
        reveal_strlit("t12d8008h1_9cedc1f1428b_046e095b7c4a");
        reveal_strlit("t12i190700_d83cc789557e_16bbda4055b2");
        reveal_with_fuel(agree, 4);
        lemma_less(key(8), key(9), 3);
    }
    assert(text::precedes(key(9), key(10))) by {
        reveal_strlit("t12i190700_d83cc789557e_16bbda4055b2");
        reveal_strlit("t12i210700_76e208dd3e22_16bbda4055b2");
        reveal_with_fuel(agree, 5);
        lemma_less(key(9), key(10), 4);
    }
    assert(text::precedes(key(10), key(11))) by {
        reveal_strlit("t12i210700_76e208dd3e22_16bbda4055b2");
        reveal_strlit("t13d141000_cbb2034c60b8_e7c285222651");
        reveal_with_fuel(agree, 3);
        lemma_less(key(10), key(11), 2);
    }
    assert(text::precedes(key(11), key(12))) by {
        reveal_strlit("t13d141000_cbb2034c60b8_e7c285222651");
        reveal_strlit("t13d1412h2_e33ad33b3d25_6b314db333b6");
        reveal_with_fuel(agree, 8);
        lemma_less(key(11), key(12), 7);
    }
    assert(text::precedes(key(12), key(13))) by {
        reveal_strlit("t13d1412h2_e33ad33b3d25_6b314db333b6");
        reveal_strlit("t13d1516h2_8daaf6152771_02713d6af862");
        reveal_with_fuel(agree, 6);
        lemma_less(key(12), key(13), 5);
    }
    assert(text::precedes(key(13), key(14))) by {
        reveal_strlit("t13d1516h2_8daaf6152771_02713d6af862");
        reveal_strlit("t13d1517h2_8daaf6152771_b0da82dd1658");
        reveal_with_fuel(agree, 8);
        lemma_less(key(13), key(14), 7);
    }
    assert(text::precedes(key(14), key(15))) by {
        reveal_strlit("t13d1517h2_8daaf6152771_b0da82dd1658");
        reveal_strlit("t13d1517h2_8daaf6152771_b1ff8ab2d16f");
        reveal_with_fuel(agree, 26);
        lemma_less(key(14), key(15), 25);
    }
    assert(text::precedes(key(15), key(16))) by {
        reveal_strlit("t13d1517h2_8daaf6152771_b1ff8ab2d16f");
        reveal_strlit("t13d1715h2_5b57614c22b0_7121afd63204");
        reveal_with_fuel(agree, 6);
        lemma_less(key(15), key(16), 5);
    }
    assert(text::precedes(key(16), key(17))) by {
        reveal_strlit("t13d1715h2_5b57614c22b0_7121afd63204");
        reveal_strlit("t13d181000_85036bcba153_d41ae481755e");
        reveal_with_fuel(agree, 6);
        lemma_less(key(16), key(17), 5);
    }
    assert(text::precedes(key(17), key(18))) by {
        reveal_strlit("t13d181000_85036bcba153_d41ae481755e");
        reveal_strlit("t13d190900_9dc949149365_97f8aa674fd9");
        reveal_with_fuel(agree, 6);
        lemma_less(key(17), key(18), 5);
    }
    assert(text::precedes(key(18), key(19))) by {
        reveal_strlit("t13d190900_9dc949149365_97f8aa674fd9");
        reveal_strlit("t13d191000_9dc949149365_e7c285222651");
        reveal_with_fuel(agree, 7);
        lemma_less(key(18), key(19), 6);
    }
    assert(text::precedes(key(19), key(20))) by {
        reveal_strlit("t13d191000_9dc949149365_e7c285222651");
        reveal_strlit("t13d201100_2b729b4bf6f3_9e7b989ebec8");
        reveal_with_fuel(agree, 5);
        lemma_less(key(19), key(20), 4);
    }
    assert(text::precedes(key(20), key(21))) by {
        reveal_strlit("t13d201100_2b729b4bf6f3_9e7b989ebec8");
        reveal_strlit("t13d2014h2_a09f3c656075_14788d8d241b");
        reveal_with_fuel(agree, 8);
        lemma_less(key(20), key(21), 7);
    }
    assert(text::precedes(key(21), key(22))) by {
        reveal_strlit("t13d2014h2_a09f3c656075_14788d8d241b");
        reveal_strlit("t13d4312h1_c7886603b240_b26ce05bbdd6");
        reveal_with_fuel(agree, 5);
        lemma_less(key(21), key(22), 4);
    }
    assert(text::precedes(key(22), key(23))) by {
        reveal_strlit("t13d4312h1_c7886603b240_b26ce05bbdd6");
        reveal_strlit("t13d880900_fcb5b95cb75a_b0d3b4ac2a14");
        reveal_with_fuel(agree, 5);
        lemma_less(key(22), key(23), 4);
    }
    assert(text::precedes(key(23), key(24))) by {
        reveal_strlit("t13d880900_fcb5b95cb75a_b0d3b4ac2a14");
        reveal_strlit("t13i1515h2_8daaf6152771_02713d6af862");
        reveal_with_fuel(agree, 4);
        lemma_less(key(23), key(24), 3);
    }
    assert(text::precedes(key(24), key(25))) by {
        reveal_strlit("t13i1515h2_8daaf6152771_02713d6af862");
        reveal_strlit("t13i1516h2_8daaf6152771_b0da82dd1658");
        reveal_with_fuel(agree, 8);
        lemma_less(key(24), key(25), 7);
    }
    assert(text::precedes(key(25), key(26))) by {
        reveal_strlit("t13i1516h2_8daaf6152771_b0da82dd1658");
        reveal_strlit("t13i1516h2_8daaf6152771_b1ff8ab2d16f");
        reveal_with_fuel(agree, 26);
        lemma_less(key(25), key(26), 25);
    }
    assert(text::precedes(key(26), key(27))) by {
        reveal_strlit("t13i1516h2_8daaf6152771_b1ff8ab2d16f");
        reveal_strlit("t13i1714h2_5b57614c22b0_7121afd63204");
        reveal_with_fuel(agree, 6);
        lemma_less(key(26), key(27), 5);
    }
    assert(text::precedes(key(27), key(28))) by {
        reveal_strlit("t13i1714h2_5b57614c22b0_7121afd63204");
        reveal_strlit("t13i181000_85036bcba153_d41ae481755e");
        reveal_with_fuel(agree, 6);
        lemma_less(key(27), key(28), 5);
    }
    assert(text::precedes(key(28), key(29))) by {
        reveal_strlit("t13i181000_85036bcba153_d41ae481755e");
        reveal_strlit("t13i190800_9dc949149365_97f8aa674fd9");
        reveal_with_fuel(agree, 6);
        lemma_less(key(28), key(29), 5);
    }
    assert(text::precedes(key(29), key(30))) by {
        reveal_strlit("t13i190800_9dc949149365_97f8aa674fd9");
        reveal_strlit("t13i2013h2_a09f3c656075_14788d8d241b");
        reveal_with_fuel(agree, 5);
        lemma_less(key(29), key(30), 4);
    }
    assert(text::precedes(key(30), key(31))) by {
        reveal_strlit("t13i2013h2_a09f3c656075_14788d8d241b");
        reveal_strlit("t13i880900_fcb5b95cb75a_b0d3b4ac2a14");
        reveal_with_fuel(agree, 5);
        lemma_less(key(30), key(31), 4);
    }
}

/// The bundled table is in ascending order of its fingerprints, so none of
/// them occurs twice.
pub proof fn law_bundled_table_is_sorted(i: usize, j: usize)
    requires
        i < j < BUNDLED_LEN,
    ensures
        text::precedes(key(i), key(j)),
        key(i) != key(j),
    decreases j,
{
    lemma_neighbours_ascend((j - 1) as usize);
    if i < j - 1 {
        law_bundled_table_is_sorted(i, (j - 1) as usize);
        text::lemma_precedes_transitive(key(i), key((j - 1) as usize), key(j));
    }
    text::lemma_precedes_trichotomy(key(i), key(j));
}

/// The bundled name of a fingerprint.
pub open spec fn bundled_label(ja4: Seq<char>) -> Option<Seq<char>> {
    if exists|i: usize| i < BUNDLED_LEN && #[trigger] key(i) == ja4 {
        Some(entry(choose|i: usize| i < BUNDLED_LEN && #[trigger] key(i) == ja4).1)
    } else {
        None
    }
}

/// An entry of the table is what its fingerprint stands for.
pub proof fn lemma_bundled_label_is(i: usize)
    requires
        i < BUNDLED_LEN,
    ensures
        bundled_label(key(i)) == Some(entry(i).1),
{
    let j = choose|j: usize| j < BUNDLED_LEN && #[trigger] key(j) == key(i);
    if j < i {
        law_bundled_table_is_sorted(j, i);
    } else if i < j {
        law_bundled_table_is_sorted(i, j);
    }
}

/// Finds a fingerprint in the bundled table by bisection.
pub fn lookup_bundled(ja4: &str) -> (r: Option<&'static str>)
    ensures
        match r {
            Some(label) => bundled_label(ja4@) == Some(label@),
            None => bundled_label(ja4@) is None,
        },
{
    let wanted = text::chars_of(ja4);
    let mut lo: usize = 0;
    let mut hi: usize = BUNDLED_LEN;
    while lo < hi
        invariant
            lo <= hi <= BUNDLED_LEN,
            wanted@ == ja4@,
            forall|i: usize|
                i < BUNDLED_LEN && #[trigger] key(i) == ja4@ ==> lo <= i < hi,
        decreases hi - lo,
    {
        let mid = lo + (hi - lo) / 2;
        let (found, label) = bundled(mid);
        let found = text::chars_of(found);
        match text::order_of(found.as_slice(), wanted.as_slice()) {
            text::Order::Same => {
                proof {
                    lemma_bundled_label_is(mid);
                }
                return Some(label);
            },
            text::Order::Before => {
                proof {
                    assert forall|i: usize|
                        i < BUNDLED_LEN && #[trigger] key(i) == ja4@ implies mid < i by {
                        lemma_not_below(mid, i);
                    }
                }
                lo = mid + 1;
            },
            text::Order::After => {
                proof {
                    assert forall|i: usize|
                        i < BUNDLED_LEN && #[trigger] key(i) == ja4@ implies i < mid by {
                        lemma_not_below(i, mid);
                    }
                }
                hi = mid;
            },
        }
    }
    None
}

proof fn lemma_not_below(i: usize, j: usize)
    requires
        i < BUNDLED_LEN,
        j < BUNDLED_LEN,
        text::precedes(key(i), key(j)),
    ensures
        i < j,
{
    text::lemma_precedes_trichotomy(key(i), key(j));
    if j < i {
        law_bundled_table_is_sorted(j, i);
    }
}

/// The mapping that a list of pairs describes; of two pairs with the same
/// fingerprint, the later one counts.
pub open spec fn pairs_map(pairs: Seq<(String, String)>) -> Map<Seq<char>, Seq<char>>
    decreases pairs.len(),
{
    if pairs.len() == 0 {
        Map::empty()
    } else {
        pairs_map(pairs.drop_last()).insert(pairs.last().0@, pairs.last().1@)
    }
}

/// Names that a user has given to fingerprints.
pub struct Overlay {
    entries: Vec<(String, String)>,
}

impl View for Overlay {
    type V = Map<Seq<char>, Seq<char>>;

    closed spec fn view(&self) -> Map<Seq<char>, Seq<char>> {
        pairs_map(self.entries@)
    }
}

impl Overlay {
    /// No names.
    pub fn empty() -> (r: Overlay)
        ensures
            r@ == Map::<Seq<char>, Seq<char>>::empty(),
    {
        Overlay { entries: Vec::new() }
    }

    /// The names in a list of pairs.
    pub fn from_entries(entries: Vec<(String, String)>) -> (r: Overlay)
        ensures
            r@ == pairs_map(entries@),
    {
        Overlay { entries }
    }

    /// The name that the overlay gives to a fingerprint.
    pub fn get(&self, ja4: &str) -> (r: Option<&str>)
        ensures
            match r {
                Some(label) => self@.contains_key(ja4@) && label@ == self@[ja4@],
                None => !self@.contains_key(ja4@),
            },
    {
        let wanted = text::chars_of(ja4);
        let mut n: usize = self.entries.len();
        assert(self.entries@.take(n as int) == self.entries@);
        while n > 0
            invariant
                n <= self.entries@.len(),
                wanted@ == ja4@,
                self@.contains_key(ja4@) == pairs_map(self.entries@.take(n as int)).contains_key(
                    ja4@,
                ),
                self@.contains_key(ja4@) ==> self@[ja4@] == pairs_map(
                    self.entries@.take(n as int),
                )[ja4@],
            decreases n,
        {
            let ghost seen = self.entries@.take(n as int);
            assert(seen.last() == self.entries@[n - 1]);
            assert(seen.drop_last() == self.entries@.take(n - 1));
            let pair = &self.entries[n - 1];
            let name = text::chars_of(pair.0.as_str());
            if text::same_chars(name.as_slice(), wanted.as_slice()) {
                return Some(pair.1.as_str());
            }
            n = n - 1;
        }
        None
    }
}

/// The name of a fingerprint: the one in the overlay, or else the bundled one.
pub open spec fn label_of(ja4: Seq<char>, overlay: Map<Seq<char>, Seq<char>>) -> Option<
    Seq<char>,
> {
    if overlay.contains_key(ja4) {
        Some(overlay[ja4])
    } else {
        bundled_label(ja4)
    }
}

/// Looks a fingerprint up in the overlay and the bundled table.
pub fn lookup<'a>(ja4: &str, overlay: &'a Overlay) -> (r: Option<&'a str>)
    ensures
        match r {
            Some(label) => label_of(ja4@, overlay@) == Some(label@),
            None => label_of(ja4@, overlay@) is None,
        },
{
    match overlay.get(ja4) {
        Some(label) => Some(label),
        None => lookup_bundled(ja4),
    }
}

/// `serde_json::Error`, carried from the parser to the log.
#[verifier::external_type_specification]
#[verifier::external_body]
pub struct ExJsonError(serde_json::Error);

/// The object of strings that a JSON text holds, if it is one.
pub uninterp spec fn json_string_map(text: Seq<char>) -> Option<Map<Seq<char>, Seq<char>>>;

/// `serde_json::from_str` for a map from strings to strings: the members of
/// the object that `text` holds, or an error when it is not a JSON object
/// whose values are all strings. The members come in no particular order.
#[verifier::external_body]
fn parse_string_map(text: &str) -> (r: Result<Vec<(String, String)>, serde_json::Error>)
    ensures
        match r {
            Ok(pairs) => json_string_map(text@) == Some(pairs_map(pairs@)),
            Err(_) => json_string_map(text@) is None,
        },
{
    serde_json::from_str::<HashMap<String, String>>(text).map(|m| m.into_iter().collect())
}

/// What became of the overlay file.
pub enum OverlayFile {
    /// There is none.
    Absent,
    /// It could not be read, in the words of the system.
    Unreadable(String),
    /// Its text.
    Text(String),
}

/// Why an overlay file is ignored.
pub enum OverlayProblem {
    /// It could not be read, in the words of the system.
    Unreadable(String),
    /// It is not a JSON object of strings.
    Malformed(serde_json::Error),
}

/// The overlay that a parsed file gives, and what is wrong with the file.
pub fn overlay_from(parsed: Result<Vec<(String, String)>, serde_json::Error>) -> (r: (
    Overlay,
    Option<OverlayProblem>,
))
    ensures
        match parsed {
            Ok(pairs) => r.0@ == pairs_map(pairs@) && r.1 is None,
            Err(e) => r.0@ == Map::<Seq<char>, Seq<char>>::empty() && r.1 == Some(
                OverlayProblem::Malformed(e),
            ),
        },
{
    match parsed {
        Ok(pairs) => (Overlay::from_entries(pairs), None),
        Err(e) => (Overlay::empty(), Some(OverlayProblem::Malformed(e))),
    }
}

/// The overlay that a file gives, and what is wrong with the file. A file
/// with something wrong gives an overlay without names.
pub fn load_overlay(file: OverlayFile) -> (r: (Overlay, Option<OverlayProblem>))
    ensures
        match file {
            OverlayFile::Absent => r.0@ == Map::<Seq<char>, Seq<char>>::empty() && r.1 is None,
            OverlayFile::Unreadable(why) => r.0@ == Map::<Seq<char>, Seq<char>>::empty() && r.1
                == Some(OverlayProblem::Unreadable(why)),
            OverlayFile::Text(text) => match json_string_map(text@) {
                Some(map) => r.0@ == map && r.1 is None,
                None => r.0@ == Map::<Seq<char>, Seq<char>>::empty() && (r.1 matches Some(
                    OverlayProblem::Malformed(_),
                )),
            },
        },
{
    match file {
        OverlayFile::Absent => (Overlay::empty(), None),
        OverlayFile::Unreadable(why) => (
            Overlay::empty(),
            Some(OverlayProblem::Unreadable(why)),
        ),
        OverlayFile::Text(text) => overlay_from(parse_string_map(text.as_str())),
    }
}

/// The overlay wins on conflict, and what it does not name keeps its bundled
/// name; an overlay without names changes nothing.
pub proof fn law_overlay_wins(
    overlay: Map<Seq<char>, Seq<char>>,
    ja4: Seq<char>,
    other: Seq<char>,
    label: Seq<char>,
)
    ensures
        label_of(ja4, overlay.insert(ja4, label)) == Some(label),
        other != ja4 ==> label_of(other, overlay.insert(ja4, label)) == label_of(other, overlay),
        label_of(other, Map::empty()) == bundled_label(other),
{
}

/// The clients that are known, each with its fingerprints.
pub proof fn law_known_clients()
    ensures
        bundled_label("q13d0312h3_55b375c5d22e_06cda9e17597"@) == Some("Chromium Browser"@),
        bundled_label("q13i0311h3_55b375c5d22e_06cda9e17597"@) == Some("Chromium Browser"@),
        bundled_label("t13d1516h2_8daaf6152771_02713d6af862"@) == Some("Chromium Browser"@),
        bundled_label("t13d1517h2_8daaf6152771_b0da82dd1658"@) == Some("Chromium Browser"@),
        bundled_label("t13d1517h2_8daaf6152771_b1ff8ab2d16f"@) == Some("Chromium Browser"@),
        bundled_label("t13i1515h2_8daaf6152771_02713d6af862"@) == Some("Chromium Browser"@),
        bundled_label("t13i1516h2_8daaf6152771_b0da82dd1658"@) == Some("Chromium Browser"@),
        bundled_label("t13i1516h2_8daaf6152771_b1ff8ab2d16f"@) == Some("Chromium Browser"@),
        bundled_label("t12d160700_8cdfa2d4673b_18dd7303c4a5"@) == Some("GoLang"@),
        bundled_label("t13d141000_cbb2034c60b8_e7c285222651"@) == Some("GoLang"@),
        bundled_label("t12d190800_d83cc789557e_16bbda4055b2"@) == Some("Cobalt Strike v4.9.1 beacon [Windows 10]"@),
        bundled_label("t12d210800_76e208dd3e22_16bbda4055b2"@) == Some("Cobalt Strike v4.9.1 beacon [Windows 10]"@),
        bundled_label("t12i190700_d83cc789557e_16bbda4055b2"@) == Some("Cobalt Strike v4.9.1 beacon [Windows 10]"@),
        bundled_label("t12i210700_76e208dd3e22_16bbda4055b2"@) == Some("Cobalt Strike v4.9.1 beacon [Windows 10]"@),
        bundled_label("t12d190800_d83cc789557e_7af1ed941c26"@) == Some("GoLang / WinINET [Windows 10/11]"@),
        bundled_label("t12d350600_9d4c96c0953b_0a9c83bf8b96"@) == Some("Phillips Hue Bridge"@),
        bundled_label("t12d520600_b380db6257eb_0a9c83bf8b96"@) == Some("LIFX Smart Bulbs"@),
        bundled_label("t12d8008h1_9cedc1f1428b_046e095b7c4a"@) == Some("Nest"@),
        bundled_label("t13d1412h2_e33ad33b3d25_6b314db333b6"@) == Some("GoLang webhooks"@),
        bundled_label("t13d1715h2_5b57614c22b0_7121afd63204"@) == Some("Mozilla Firefox"@),
        bundled_label("t13i1714h2_5b57614c22b0_7121afd63204"@) == Some("Mozilla Firefox"@),
        bundled_label("t13d181000_85036bcba153_d41ae481755e"@) == Some("Python"@),
        bundled_label("t13d4312h1_c7886603b240_b26ce05bbdd6"@) == Some("Python"@),
        bundled_label("t13i181000_85036bcba153_d41ae481755e"@) == Some("Python"@),
        bundled_label("t13d190900_9dc949149365_97f8aa674fd9"@) == Some("GoLang / Sliver Agent"@),
        bundled_label("t13i190800_9dc949149365_97f8aa674fd9"@) == Some("GoLang / Sliver Agent"@),
        bundled_label("t13d191000_9dc949149365_e7c285222651"@) == Some("GoLang net package"@),
        bundled_label("t13d201100_2b729b4bf6f3_9e7b989ebec8"@) == Some("IcedID"@),
        bundled_label("t13d2014h2_a09f3c656075_14788d8d241b"@) == Some("Safari"@),
        bundled_label("t13i2013h2_a09f3c656075_14788d8d241b"@) == Some("Safari"@),
        bundled_label("t13d880900_fcb5b95cb75a_b0d3b4ac2a14"@) == Some("SoftEther VPN Client"@),
        bundled_label("t13i880900_fcb5b95cb75a_b0d3b4ac2a14"@) == Some("SoftEther VPN Client"@),
{
    lemma_bundled_label_is(0);
    lemma_bundled_label_is(1);
    lemma_bundled_label_is(2);
    lemma_bundled_label_is(3);
    lemma_bundled_label_is(4);
    lemma_bundled_label_is(5);
    lemma_bundled_label_is(6);
    lemma_bundled_label_is(7);
    lemma_bundled_label_is(8);
    lemma_bundled_label_is(9);
    lemma_bundled_label_is(10);
    lemma_bundled_label_is(11);
    lemma_bundled_label_is(12);
    lemma_bundled_label_is(13);
    lemma_bundled_label_is(14);
    lemma_bundled_label_is(15);
    lemma_bundled_label_is(16);
    lemma_bundled_label_is(17);
    lemma_bundled_label_is(18);
    lemma_bundled_label_is(19);
    lemma_bundled_label_is(20);
    lemma_bundled_label_is(21);
    lemma_bundled_label_is(22);
    lemma_bundled_label_is(23);
    lemma_bundled_label_is(24);
    lemma_bundled_label_is(25);
    lemma_bundled_label_is(26);
    lemma_bundled_label_is(27);
    lemma_bundled_label_is(28);
    lemma_bundled_label_is(29);
    lemma_bundled_label_is(30);
    lemma_bundled_label_is(31);
}

/// Nothing else has a bundled name, and all thirty-two of them do.
pub proof fn law_bundled_names_are_those_of_the_table(ja4: Seq<char>)
    ensures
        BUNDLED_LEN == 32,
        bundled_label(ja4) is Some <==> exists|i: usize| i < 32 && #[trigger] key(i) == ja4,
        forall|i: usize| i < 32 ==> bundled_label(#[trigger] key(i)) == Some(entry(i).1),
{
    assert forall|i: usize| i < 32 implies bundled_label(#[trigger] key(i)) == Some(
        entry(i).1,
    ) by {
        lemma_bundled_label_is(i);
    }
}

/// A list of pairs names what one of its pairs names, and the last pair for a
/// fingerprint decides.
pub proof fn law_later_pairs_win(pairs: Seq<(String, String)>, pair: (String, String), ja4: Seq<char>)
    ensures
        pairs_map(Seq::<(String, String)>::empty()) == Map::<Seq<char>, Seq<char>>::empty(),
        pairs_map(pairs.push(pair)).contains_key(pair.0@),
        pairs_map(pairs.push(pair))[pair.0@] == pair.1@,
        ja4 != pair.0@ ==> pairs_map(pairs.push(pair)).contains_key(ja4) == pairs_map(
            pairs,
        ).contains_key(ja4),
        ja4 != pair.0@ && pairs_map(pairs).contains_key(ja4) ==> pairs_map(pairs.push(pair))[ja4]
            == pairs_map(pairs)[ja4],
{
    assert(pairs.push(pair).drop_last() =~= pairs);
}

/// The name of a fingerprint is that of the overlay where it has one, and
/// else the bundled one.
pub proof fn law_names(ja4: Seq<char>, overlay: Map<Seq<char>, Seq<char>>)
    ensures
        overlay.contains_key(ja4) ==> label_of(ja4, overlay) == Some(overlay[ja4]),
        !overlay.contains_key(ja4) ==> label_of(ja4, overlay) == bundled_label(ja4),
{
}

} // verus!
