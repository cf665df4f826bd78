use vstd::prelude::*;

verus! {

/// A font handle loaded under a name.
pub struct RegisteredFont<F> {
    pub name: String,
    pub font: F,
}

impl<F> RegisteredFont<F> {
    pub fn new(name: &str, font: F) -> (r: Self)
        ensures
            r.name@ == name@,
            r.font == font,
    {
        RegisteredFont { name: name.to_owned(), font }
    }
}

/// Fonts that text can be drawn with, looked up by name; a name loaded twice finds the
/// font loaded first.
pub struct FontRegistry<F> {
    loaded_fonts: Vec<RegisteredFont<F>>,
}

impl<F> FontRegistry<F> {
    pub closed spec fn view(&self) -> Seq<RegisteredFont<F>> {
        self.loaded_fonts@
    }

    pub fn new() -> (r: Self)
        ensures
            r.view() == Seq::<RegisteredFont<F>>::empty(),
    {
        FontRegistry { loaded_fonts: Vec::new() }
    }

    pub fn load_font(&mut self, font: F, name: &str)
        ensures
            final(self).view().len() == old(self).view().len() + 1,
            final(self).view().drop_last() == old(self).view(),
            final(self).view().last().name@ == name@,
            final(self).view().last().font == font,
    {
        self.loaded_fonts.push(RegisteredFont::new(name, font));
        proof {
            assert(self.loaded_fonts@.drop_last() =~= old(self).loaded_fonts@);
        }
    }

    /// The font first loaded under `name`, if any.
    pub fn find_font(&self, name: &str) -> (r: Option<&F>)
        ensures
            r matches Some(f) ==> exists|i: int|
                0 <= i < self.view().len() && self.view()[i].name@ == name@ && *f
                    == self.view()[i].font && forall|j: int|
                    0 <= j < i ==> #[trigger] self.view()[j].name@ != name@,
            r is None ==> forall|i: int|
                0 <= i < self.view().len() ==> #[trigger] self.view()[i].name@ != name@,
    {
        let key = name.to_owned();
        let mut i: usize = 0;
        while i < self.loaded_fonts.len()
            invariant
                i <= self.loaded_fonts.len(),
                key@ == name@,
                forall|j: int| 0 <= j < i ==> #[trigger] self.loaded_fonts@[j].name@ != name@,
            decreases self.loaded_fonts.len() - i,
        {
            if self.loaded_fonts[i].name == key {
                assert(self.view()[i as int].name@ == name@);
                return Some(&self.loaded_fonts[i].font);
            }
            i = i + 1;
        }
        None
    }
}

} // verus!
