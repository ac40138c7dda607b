//! The offspring to simulate and the files that each of them gets.

use vstd::prelude::*;
use vstd::string::*;
use crate::text::{decimal, push_decimal};

verus! {

/// One offspring: its name, its parents, and the paths of its files.
#[derive(Clone, Debug)]
pub struct SampleOut {
    pub name: String,
    pub parent1: String,
    pub parent2: String,
    /// The mutation file.
    pub targetvcfout: String,
    /// The haplotype file.
    pub targetbedout: String,
    /// The file of the true positions of new mutations.
    pub targetdnmout: String,
}

/// The offspring of one pair of parents.
#[derive(Clone, Debug)]
pub struct FamilyOut {
    pub prefix: String,
    pub samples: Vec<SampleOut>,
}

/// The path of a file of an offspring: in the folder `prefix`, named after
/// the offspring and its parents, with the ending that tells the kind of
/// file.
pub open spec fn target_path(
    prefix: Seq<char>,
    name: Seq<char>,
    p1name: Seq<char>,
    p2name: Seq<char>,
    ending: Seq<char>,
) -> Seq<char> {
    prefix + "/"@ + name + "_"@ + p1name + "_"@ + p2name + ending
}

/// The name of the `i`-th offspring of a family.
pub open spec fn sibling_name(i: nat) -> Seq<char> {
    "sib"@ + decimal(i)
}

fn path_of(prefix: &String, p1name: &String, p2name: &String, name: &String, ending: &str) -> (r:
    String)
    ensures
        r@ == target_path(prefix@, name@, p1name@, p2name@, ending@),
{
    let mut r = prefix.clone();
    r.append("/");
    r.append(name.as_str());
    r.append("_");
    r.append(p1name.as_str());
    r.append("_");
    r.append(p2name.as_str());
    r.append(ending);
    r
}

impl SampleOut {
    /// The offspring `name` of the parents `p1name` and `p2name`, with its
    /// files in the folder `prefix`.
    pub fn new(prefix: &String, p1name: &String, p2name: &String, name: &String) -> (r: Self)
        ensures
            r.is_offspring(prefix@, p1name@, p2name@, name@),
    {
        Self {
            name: name.clone(),
            parent1: p1name.clone(),
            parent2: p2name.clone(),
            targetvcfout: path_of(prefix, p1name, p2name, name, "_meiosimvariants.txt"),
            targetbedout: path_of(prefix, p1name, p2name, name, "_haplotypes.bed"),
            targetdnmout: path_of(prefix, p1name, p2name, name, "_truednm.txt"),
        }
    }

    /// This is the offspring `name` of the parents `p1name` and `p2name`
    /// with its files in the folder `prefix`.
    pub open spec fn is_offspring(
        &self,
        prefix: Seq<char>,
        p1name: Seq<char>,
        p2name: Seq<char>,
        name: Seq<char>,
    ) -> bool {
        &&& self.name@ == name
        &&& self.parent1@ == p1name
        &&& self.parent2@ == p2name
        &&& self.targetvcfout@ == target_path(
            prefix,
            name,
            p1name,
            p2name,
            "_meiosimvariants.txt"@,
        )
        &&& self.targetbedout@ == target_path(prefix, name, p1name, p2name, "_haplotypes.bed"@)
        &&& self.targetdnmout@ == target_path(prefix, name, p1name, p2name, "_truednm.txt"@)
    }
}

impl FamilyOut {
    /// A family of `number_of_sibs` offspring of `parent1` and `parent2`,
    /// named `sib0`, `sib1` and so on, with their files in the folder
    /// `prefix`.
    pub fn new(prefix: &String, parent1: &String, parent2: &String, number_of_sibs: u8) -> (r: Self)
        ensures
            r.prefix@ == prefix@,
            r.samples@.len() == number_of_sibs,
            forall|i: int|
                0 <= i < number_of_sibs ==> (#[trigger] r.samples@[i]).is_offspring(
                    prefix@,
                    parent1@,
                    parent2@,
                    sibling_name(i as nat),
                ),
    {
        let mut samples: Vec<SampleOut> = Vec::new();
        let mut i: u8 = 0;
        while i < number_of_sibs
            invariant
                i <= number_of_sibs,
                samples@.len() == i,
                forall|k: int|
                    0 <= k < i ==> (#[trigger] samples@[k]).is_offspring(
                        prefix@,
                        parent1@,
                        parent2@,
                        sibling_name(k as nat),
                    ),
            decreases number_of_sibs - i,
        {
            let mut name = String::from_str("sib");
            push_decimal(&mut name, i as u64);
            samples.push(SampleOut::new(prefix, parent1, parent2, &name));
            i += 1;
        }
        Self { prefix: prefix.clone(), samples }
    }
}

} // verus!
