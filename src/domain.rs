use vstd::prelude::*;

verus! {

/// A vocabulary word together with its pronunciation.
#[derive(Debug, Clone)]
pub struct Word {
    pub characters: String,
    pub pinyin: String,
}

/// One piece of a text: literal text, or an annotated vocabulary word.
#[derive(Debug, Clone)]
pub enum TextSegment {
    Word { word: Word },
    Plain { text: String },
}

/// A raw input string together with its segmentation.
#[derive(Debug, Clone)]
pub struct Text {
    pub raw_input: String,
    pub segments: Vec<TextSegment>,
}

/// Mathematical value of a segment.
pub enum SegmentView {
    Word { characters: Seq<char>, pinyin: Seq<char> },
    Plain { text: Seq<char> },
}

/// Mathematical value of a text.
pub struct TextView {
    pub raw_input: Seq<char>,
    pub segments: Seq<SegmentView>,
}

impl View for TextSegment {
    type V = SegmentView;

    open spec fn view(&self) -> SegmentView {
        match self {
            TextSegment::Word { word } => SegmentView::Word {
                characters: word.characters@,
                pinyin: word.pinyin@,
            },
            TextSegment::Plain { text } => SegmentView::Plain { text: text@ },
        }
    }
}

/// The values of a sequence of segments, in order.
pub open spec fn segments_view(s: Seq<TextSegment>) -> Seq<SegmentView> {
    s.map_values(|x: TextSegment| x@)
}

impl View for Text {
    type V = TextView;

    open spec fn view(&self) -> TextView {
        TextView { raw_input: self.raw_input@, segments: segments_view(self.segments@) }
    }
}

} // verus!
