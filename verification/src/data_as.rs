//! The labels of the assembler's data section.
use vstd::prelude::*;
use crate::text::{owned, push_str};
use crate::util::CompilerError;

verus! {

/// A label of the data section, addressed relative to the program counter or absolutely.
pub struct Label {
    pub name: String,
    pub is_relative: bool,
}

/// The labels defined in the data section, in order.
pub struct DataSection {
    labels: Vec<Label>,
}

/// The name and addressing of each label.
pub open spec fn labels_view(v: Seq<Label>) -> Seq<(Seq<char>, bool)> {
    v.map_values(|l: Label| (l.name@, l.is_relative))
}

/// The position of the first label named `name`, if any.
pub open spec fn find_label(labels: Seq<(Seq<char>, bool)>, name: Seq<char>) -> Option<int>
    decreases labels.len(),
{
    if labels.len() == 0 {
        None
    } else if labels[0].0 == name {
        Some(0)
    } else {
        match find_label(labels.drop_first(), name) {
            Some(i) => Some(i + 1),
            None => None,
        }
    }
}

/// The message for a label that is not defined.
pub open spec fn undefined_label_message(name: Seq<char>) -> Seq<char> {
    "undefined label `"@ + name + "`"@
}

impl View for DataSection {
    type V = Seq<(Seq<char>, bool)>;

    closed spec fn view(&self) -> Seq<(Seq<char>, bool)> {
        labels_view(self.labels@)
    }
}

proof fn lemma_find_label(labels: Seq<(Seq<char>, bool)>, name: Seq<char>, j: int)
    requires
        0 <= j <= labels.len(),
        forall|i: int| 0 <= i < j ==> labels[i].0 != name,
    ensures
        j < labels.len() && labels[j].0 == name ==> find_label(labels, name) == Some(j),
        j == labels.len() ==> find_label(labels, name) is None,
    decreases labels.len(),
{
    if labels.len() > 0 && j > 0 {
        lemma_find_label(labels.drop_first(), name, j - 1);
    }
}

/// After a label is defined, looking its name up finds the first label of that name: an
/// earlier one where there is one, else the new one.
pub proof fn law_label_found_after_add(labels: Seq<(Seq<char>, bool)>, name: Seq<char>, is_relative: bool)
    ensures
        find_label(labels.push((name, is_relative)), name) == match find_label(labels, name) {
            Some(i) => Some(i),
            None => Some(labels.len() as int),
        },
    decreases labels.len(),
{
    if labels.len() > 0 {
        assert(labels.push((name, is_relative)).drop_first() =~= labels.drop_first().push(
            (name, is_relative),
        ));
        law_label_found_after_add(labels.drop_first(), name, is_relative);
    }
}

impl DataSection {
    pub fn new() -> (r: Self)
        ensures
            r@ == Seq::<(Seq<char>, bool)>::empty(),
    {
        let r = DataSection { labels: Vec::new() };
        assert(labels_view(r.labels@) =~= Seq::<(Seq<char>, bool)>::empty());
        r
    }

    /// Defines a label after the others.
    pub fn add_label(&mut self, name: &str, is_relative: bool)
        ensures
            final(self)@ == old(self)@.push((name@, is_relative)),
    {
        let ghost before = labels_view(self.labels@);
        self.labels.push(Label { name: owned(name), is_relative });
        assert(labels_view(self.labels@) =~= before.push((name@, is_relative)));
    }

    /// The first label named `label_name`, or an error when there is none.
    pub fn get_label(&self, label_name: &str) -> (r: Result<&Label, CompilerError>)
        ensures
            match find_label(self@, label_name@) {
                Some(i) => r matches Ok(l) && l.name@ == self@[i].0 && l.is_relative == self@[i].1,
                None => r matches Err(e) && e@ == undefined_label_message(label_name@),
            },
    {
        let w = crate::text::chars_of(label_name);
        let mut i: usize = 0;
        while i < self.labels.len()
            invariant
                i <= self.labels@.len(),
                w@ == label_name@,
                forall|k: int| 0 <= k < i ==> labels_view(self.labels@)[k].0 != label_name@,
            decreases self.labels@.len() - i,
        {
            if crate::text::str_is(self.labels[i].name.as_str(), w.as_slice()) {
                proof {
                    lemma_find_label(labels_view(self.labels@), label_name@, i as int);
                }
                return Ok(&self.labels[i]);
            }
            i = i + 1;
        }
        proof {
            lemma_find_label(labels_view(self.labels@), label_name@, i as int);
        }
        let mut msg = owned("undefined label `");
        push_str(&mut msg, label_name);
        push_str(&mut msg, "`");
        Err(CompilerError::new(msg.as_str()))
    }
}

} // verus!
