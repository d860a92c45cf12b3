//! Table detail view: a named window showing either a sequence of values as
//! an index/value table or a single scalar's display form.

use vstd::prelude::*;

verus! {

/// What a table window would render: its rows, its scalar, or nothing yet.
pub enum TableContent {
    Rows,
    Scalar,
    Nothing,
}

/// A generic detail view over a displayable value type: either a whole
/// sequence to lay out as an index/value table, or one scalar's display
/// form, under a window name.
pub struct TableWindow<T> {
    pub name: String,
    pub data: Option<Vec<T>>,
    pub scalar: Option<String>,
}

impl<T> Default for TableWindow<T> {
    /// A fresh table window is named "Table" and holds nothing to show.
    fn default() -> (r: Self)
        ensures
            r.name@ == "Table"@,
            r.data is None,
            r.scalar is None,
    {
        TableWindow { name: String::from_str("Table"), data: None, scalar: None }
    }
}

impl<T> TableWindow<T> {
    pub fn set_name(&mut self, name: String)
        ensures
            final(self).name == name,
            final(self).data == old(self).data,
            final(self).scalar == old(self).scalar,
    {
        self.name = name;
    }

    pub fn set_data(&mut self, data: Vec<T>)
        ensures
            final(self).data == Some(data),
            final(self).name == old(self).name,
            final(self).scalar == old(self).scalar,
    {
        self.data = Some(data);
    }

    pub fn set_scalar(&mut self, scalar: String)
        ensures
            final(self).scalar == Some(scalar),
            final(self).name == old(self).name,
            final(self).data == old(self).data,
    {
        self.scalar = Some(scalar);
    }

    /// Which rendering the window gets: row data wins over a scalar, and a
    /// window holding neither shows nothing.
    pub fn content_kind(&self) -> (k: TableContent)
        ensures
            k is Rows <==> self.data is Some,
            k is Scalar <==> (self.data is None && self.scalar is Some),
            k is Nothing <==> (self.data is None && self.scalar is None),
    {
        if self.data.is_some() {
            TableContent::Rows
        } else if self.scalar.is_some() {
            TableContent::Scalar
        } else {
            TableContent::Nothing
        }
    }

    /// How many rows a virtualized table over the data must offer: one per
    /// element of the sequence.
    pub fn row_count(&self) -> (n: usize)
        ensures
            self.data matches Some(d) ==> n == d.len(),
            self.data is None ==> n == 0,
    {
        match &self.data {
            Some(d) => d.len(),
            None => 0,
        }
    }
}

} // verus!
