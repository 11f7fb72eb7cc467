//! A document that is being read, with the part of it that is on the screen.
use std::sync::Arc;

use vstd::prelude::*;

use crate::document::load::{LoadedDocument, LoadedModel};
use crate::text::{floor_boundary, greatest, index_at, is_boundary};
use crate::viewport::{
    fitted, gone_to_byte, gone_to_char, gone_to_end, line_views, row_views, scrolled, shown,
    Viewport, ViewportModel, VisualLine,
};

verus! {

/// The number of columns before the screen is known.
pub const FIRST_WIDTH: usize = 80;

/// A document that is being read, with the part of it that is on the screen.
#[derive(Debug)]
pub struct Reading {
    loaded: Arc<LoadedDocument>,
    viewport: Viewport,
}

#[verifier::ext_equal]
pub struct ReadingModel {
    pub loaded: LoadedModel,
    pub viewport: ViewportModel,
}

impl View for Reading {
    type V = ReadingModel;

    closed spec fn view(&self) -> ReadingModel {
        ReadingModel { loaded: (*self.loaded)@, viewport: self.viewport@ }
    }
}

pub open spec fn reading_text(reading: ReadingModel) -> Seq<char> {
    reading.loaded.document.text
}

pub open spec fn opened_at(loaded: LoadedModel, position: int) -> ReadingModel {
    let text = loaded.document.text;
    ReadingModel {
        loaded,
        viewport: gone_to_byte(
            text,
            ViewportModel {
                anchor: floor_boundary(text, position) as int,
                width: FIRST_WIDTH as int,
                height: 1,
                total: text.len() as int,
            },
            position,
        ),
    }
}

pub open spec fn reading_at_byte(reading: ReadingModel, offset: int) -> ReadingModel {
    ReadingModel {
        viewport: gone_to_byte(reading_text(reading), reading.viewport, offset),
        ..reading
    }
}

pub open spec fn reading_at_char(reading: ReadingModel, target: int) -> ReadingModel {
    ReadingModel {
        viewport: gone_to_char(reading_text(reading), reading.viewport, target),
        ..reading
    }
}

pub open spec fn reading_at_start(reading: ReadingModel) -> ReadingModel {
    ReadingModel { viewport: ViewportModel { anchor: 0, ..reading.viewport }, ..reading }
}

pub open spec fn reading_at_end(reading: ReadingModel) -> ReadingModel {
    ReadingModel { viewport: gone_to_end(reading_text(reading), reading.viewport), ..reading }
}

pub open spec fn reading_scrolled(reading: ReadingModel, delta: int) -> ReadingModel {
    ReadingModel { viewport: scrolled(reading_text(reading), reading.viewport, delta), ..reading }
}

/// The document on a screen of the given size.
pub open spec fn reading_fitted(reading: ReadingModel, width: int, height: int) -> ReadingModel {
    ReadingModel {
        viewport: fitted(
            reading_text(reading),
            ViewportModel { width: greatest(width, 1), ..reading.viewport },
            height,
        ),
        ..reading
    }
}

impl Reading {
    #[verifier::type_invariant]
    spec fn fits(self) -> bool {
        self.viewport.valid_for((*self.loaded)@.document.text)
    }

    /// Opens a document at a position.
    pub fn new(loaded: Arc<LoadedDocument>, position: usize) -> (reading: Self)
        ensures
            reading@ == opened_at((*loaded)@, position as int),
    {
        let text = loaded.document().text();
        let mut viewport = Viewport::new(text, position);
        viewport.set_width(FIRST_WIDTH);
        viewport.goto_byte(text, position);
        Reading { loaded, viewport }
    }

    pub fn loaded(&self) -> (loaded: &LoadedDocument)
        ensures
            loaded@ == self@.loaded,
    {
        &*self.loaded
    }

    pub fn anchor(&self) -> (anchor: usize)
        ensures
            anchor == self@.viewport.anchor,
            is_boundary(reading_text(self@), anchor as int),
    {
        proof {
            use_type_invariant(self);
            self.viewport.lemma_valid(reading_text(self@));
        }
        self.viewport.anchor()
    }

    pub fn progress_chars(&self) -> (count: usize)
        ensures
            count == index_at(reading_text(self@), self@.viewport.anchor),
    {
        proof {
            use_type_invariant(self);
        }
        self.viewport.progress_chars(self.loaded.document().text())
    }

    pub fn at_byte(self, offset: usize) -> (reading: Self)
        ensures
            reading@ == reading_at_byte(self@, offset as int),
    {
        proof {
            use_type_invariant(&self);
        }
        let loaded = self.loaded;
        let mut viewport = self.viewport;
        viewport.goto_byte(loaded.document().text(), offset);
        Reading { loaded, viewport }
    }

    pub fn at_char(self, target: usize) -> (reading: Self)
        ensures
            reading@ == reading_at_char(self@, target as int),
    {
        proof {
            use_type_invariant(&self);
        }
        let loaded = self.loaded;
        let mut viewport = self.viewport;
        viewport.goto_char(loaded.document().text(), target);
        Reading { loaded, viewport }
    }

    pub fn at_start(self) -> (reading: Self)
        ensures
            reading@ == reading_at_start(self@),
    {
        proof {
            use_type_invariant(&self);
        }
        let loaded = self.loaded;
        let mut viewport = self.viewport;
        viewport.goto_start();
        Reading { loaded, viewport }
    }

    pub fn at_end(self) -> (reading: Self)
        ensures
            reading@ == reading_at_end(self@),
    {
        proof {
            use_type_invariant(&self);
        }
        let loaded = self.loaded;
        let mut viewport = self.viewport;
        viewport.goto_end(loaded.document().text());
        Reading { loaded, viewport }
    }

    pub fn scrolled(self, delta: isize) -> (reading: Self)
        ensures
            reading@ == reading_scrolled(self@, delta as int),
    {
        proof {
            use_type_invariant(&self);
        }
        let loaded = self.loaded;
        let mut viewport = self.viewport;
        viewport.scroll_by(loaded.document().text(), delta);
        Reading { loaded, viewport }
    }

    /// The document on a screen of the given size, and the rows on it.
    pub fn fitted(self, width: usize, height: usize) -> (result: (Self, Vec<VisualLine>))
        ensures
            result.0@ == reading_fitted(self@, width as int, height as int),
            height == 0 ==> result.1@.len() == 0,
            height > 0 ==> line_views(result.1@) == row_views(
                reading_text(self@),
                shown(reading_text(self@), result.0@.viewport),
            ),
    {
        proof {
            use_type_invariant(&self);
        }
        let loaded = self.loaded;
        let mut viewport = self.viewport;
        viewport.set_width(width);
        let lines = viewport.visible_lines(loaded.document().text(), height);
        (Reading { loaded, viewport }, lines)
    }
}

} // verus!
