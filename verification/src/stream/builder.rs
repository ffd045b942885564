//! What the header lines read so far say.
use vstd::prelude::*;
use crate::frame::header::{Frame, LineModel, RecordClass};
use crate::frame::text::spec_texts;
use crate::frame::RawFieldEncoding;
use crate::stream::header::spec_pairs;
use crate::stream::interval::PInterval;
use crate::stream::predictor::FieldPredictor;

verus! {

/// The four lists that declare the fields of one record class.
#[derive(Debug)]
pub struct FieldLists {
    pub names: Vec<String>,
    pub signedness: Vec<bool>,
    pub encoding: Vec<RawFieldEncoding>,
    pub predictors: Vec<FieldPredictor>,
}

/// The lists of one record class as plain values.
pub struct FieldListsModel {
    pub names: Seq<Seq<char>>,
    pub signedness: Seq<bool>,
    pub encoding: Seq<RawFieldEncoding>,
    pub predictors: Seq<FieldPredictor>,
}

impl View for FieldLists {
    type V = FieldListsModel;

    open spec fn view(&self) -> FieldListsModel {
        FieldListsModel {
            names: spec_texts(self.names@),
            signedness: self.signedness@,
            encoding: self.encoding@,
            predictors: self.predictors@,
        }
    }
}

impl FieldListsModel {
    /// No field declared.
    pub open spec fn empty() -> FieldListsModel {
        FieldListsModel {
            names: Seq::empty(),
            signedness: Seq::empty(),
            encoding: Seq::empty(),
            predictors: Seq::empty(),
        }
    }

    /// The four lists are of one length: each field has its name, its
    /// signedness, its encoding and its predictor.
    pub open spec fn aligned(self) -> bool {
        &&& self.signedness.len() == self.names.len()
        &&& self.encoding.len() == self.names.len()
        &&& self.predictors.len() == self.names.len()
    }

    /// The number of fields that all four lists declare: the length of the
    /// shortest of them, which is the length of each where they are aligned.
    pub open spec fn count(self) -> nat {
        let a = if self.names.len() <= self.signedness.len() {
            self.names.len()
        } else {
            self.signedness.len()
        };
        let b = if self.encoding.len() <= self.predictors.len() {
            self.encoding.len()
        } else {
            self.predictors.len()
        };
        if a <= b {
            a
        } else {
            b
        }
    }
}

impl FieldLists {
    /// Four empty lists.
    pub fn new() -> (r: Self)
        ensures
            r@ == FieldListsModel::empty(),
    {
        let r = FieldLists {
            names: Vec::new(),
            signedness: Vec::new(),
            encoding: Vec::new(),
            predictors: Vec::new(),
        };
        assert(spec_texts(r.names@) =~= Seq::<Seq<char>>::empty());
        r
    }

    /// Whether the four lists are of one length.
    pub fn aligned(&self) -> (r: bool)
        ensures
            r == self@.aligned(),
    {
        assert(spec_texts(self.names@).len() == self.names@.len());
        self.signedness.len() == self.names.len() && self.encoding.len() == self.names.len()
            && self.predictors.len() == self.names.len()
    }

    /// The number of fields that all four lists declare.
    pub fn count(&self) -> (r: usize)
        ensures
            r == self@.count(),
    {
        assert(spec_texts(self.names@).len() == self.names@.len());
        let a: usize = if self.names.len() <= self.signedness.len() {
            self.names.len()
        } else {
            self.signedness.len()
        };
        let b: usize = if self.encoding.len() <= self.predictors.len() {
            self.encoding.len()
        } else {
            self.predictors.len()
        };
        if a <= b {
            a
        } else {
            b
        }
    }
}

/// Collects what header lines say until the header is complete.
#[derive(Debug)]
pub struct HeaderBuilder {
    pub product: Option<String>,
    pub data_version: Option<String>,
    pub i_interval: Option<i16>,
    pub p_interval: Option<PInterval>,
    pub p_ratio: Option<u16>,
    pub gyro_scale: Option<u32>,
    pub loop_time: Option<u32>,
    pub other_headers: Vec<(String, String)>,
    pub intra: FieldLists,
    pub predicted: FieldLists,
    pub slow: FieldLists,
    pub gnss: FieldLists,
    pub home: FieldLists,
}

/// The state of a header builder as plain values.
pub struct BuilderModel {
    pub product: Option<Seq<char>>,
    pub data_version: Option<Seq<char>>,
    pub i_interval: Option<i16>,
    pub p_interval: Option<PInterval>,
    pub p_ratio: Option<u16>,
    pub gyro_scale: Option<u32>,
    pub loop_time: Option<u32>,
    pub other_headers: Seq<(Seq<char>, Seq<char>)>,
    pub intra: FieldListsModel,
    pub predicted: FieldListsModel,
    pub slow: FieldListsModel,
    pub gnss: FieldListsModel,
    pub home: FieldListsModel,
}

/// The text of an optional string.
pub open spec fn spec_text(text: Option<String>) -> Option<Seq<char>> {
    match text {
        Some(t) => Some(t@),
        None => None,
    }
}

impl View for HeaderBuilder {
    type V = BuilderModel;

    open spec fn view(&self) -> BuilderModel {
        BuilderModel {
            product: spec_text(self.product),
            data_version: spec_text(self.data_version),
            i_interval: self.i_interval,
            p_interval: self.p_interval,
            p_ratio: self.p_ratio,
            gyro_scale: self.gyro_scale,
            loop_time: self.loop_time,
            other_headers: spec_pairs(self.other_headers@),
            intra: self.intra@,
            predicted: self.predicted@,
            slow: self.slow@,
            gnss: self.gnss@,
            home: self.home@,
        }
    }
}

impl FieldListsModel {
    /// The lists after a line that holds list `line` of this class. The
    /// lines of another class, and lines that hold no list, change nothing.
    pub open spec fn spec_apply(self, class: RecordClass, line: LineModel) -> FieldListsModel {
        match line {
            LineModel::FieldName(c, v) if c == class => FieldListsModel { names: v, ..self },
            LineModel::FieldSignedness(c, v) if c == class => FieldListsModel {
                signedness: v,
                ..self
            },
            LineModel::FieldEncoding(c, v) if c == class => FieldListsModel { encoding: v, ..self },
            LineModel::FieldPredictor(c, v) if c == class => FieldListsModel {
                predictors: v,
                ..self
            },
            _ => self,
        }
    }
}

impl BuilderModel {
    /// Nothing read yet.
    pub open spec fn empty() -> BuilderModel {
        BuilderModel {
            product: None,
            data_version: None,
            i_interval: None,
            p_interval: None,
            p_ratio: None,
            gyro_scale: None,
            loop_time: None,
            other_headers: Seq::empty(),
            intra: FieldListsModel::empty(),
            predicted: FieldListsModel::empty(),
            slow: FieldListsModel::empty(),
            gnss: FieldListsModel::empty(),
            home: FieldListsModel::empty(),
        }
    }

    /// The builder after one more line. A later line with the same key
    /// takes the place of an earlier one; lines with keys that are not known
    /// are kept in their order. Main records have their names and signedness
    /// from the lines of class I: those of class P are passed over.
    pub open spec fn spec_apply(self, line: LineModel) -> BuilderModel {
        match line {
            LineModel::Product(v) => BuilderModel { product: Some(v), ..self },
            LineModel::DataVersion(v) => BuilderModel { data_version: Some(v), ..self },
            LineModel::IInterval(v) => BuilderModel { i_interval: Some(v), ..self },
            LineModel::PInterval(v) => BuilderModel { p_interval: Some(v), ..self },
            LineModel::PRatio(v) => BuilderModel { p_ratio: Some(v), ..self },
            LineModel::GyroScale(v) => BuilderModel { gyro_scale: Some(v), ..self },
            LineModel::LoopTime(v) => BuilderModel { loop_time: Some(v), ..self },
            LineModel::UnknownHeader(k, v) => BuilderModel {
                other_headers: self.other_headers.push((k, v)),
                ..self
            },
            LineModel::FieldName(RecordClass::Predicted, _) => self,
            LineModel::FieldSignedness(RecordClass::Predicted, _) => self,
            _ => BuilderModel {
                intra: self.intra.spec_apply(RecordClass::Intra, line),
                predicted: self.predicted.spec_apply(RecordClass::Predicted, line),
                slow: self.slow.spec_apply(RecordClass::Slow, line),
                gnss: self.gnss.spec_apply(RecordClass::Gnss, line),
                home: self.home.spec_apply(RecordClass::Home, line),
                ..self
            },
        }
    }
}

impl HeaderBuilder {
    /// A builder that has read nothing.
    pub fn new() -> (r: Self)
        ensures
            r@ == BuilderModel::empty(),
    {
        let r = HeaderBuilder {
            product: None,
            data_version: None,
            i_interval: None,
            p_interval: None,
            p_ratio: None,
            gyro_scale: None,
            loop_time: None,
            other_headers: Vec::new(),
            intra: FieldLists::new(),
            predicted: FieldLists::new(),
            slow: FieldLists::new(),
            gnss: FieldLists::new(),
            home: FieldLists::new(),
        };
        assert(spec_pairs(r.other_headers@) =~= Seq::<(Seq<char>, Seq<char>)>::empty());
        r
    }

    /// Takes in one header line.
    pub fn apply(&mut self, line: Frame)
        ensures
            final(self)@ == old(self)@.spec_apply(line@),
    {
        match line {
            Frame::Product(v) => {
                self.product = Some(v);
            },
            Frame::DataVersion(v) => {
                self.data_version = Some(v);
            },
            Frame::IInterval(v) => {
                self.i_interval = Some(v);
            },
            Frame::PInterval(v) => {
                self.p_interval = Some(v);
            },
            Frame::PRatio(v) => {
                self.p_ratio = Some(v);
            },
            Frame::GyroScale(v) => {
                self.gyro_scale = Some(v);
            },
            Frame::LoopTime(v) => {
                self.loop_time = Some(v);
            },
            Frame::UnknownHeader(k, v) => {
                self.other_headers.push((k, v));
                assert(spec_pairs(self.other_headers@) =~= spec_pairs(old(self).other_headers@).push(
                    (k@, v@),
                ));
            },
            Frame::FieldName(class, v) => {
                match class {
                    RecordClass::Intra => {
                        self.intra.names = v;
                    },
                    RecordClass::Predicted => {},
                    RecordClass::Slow => {
                        self.slow.names = v;
                    },
                    RecordClass::Gnss => {
                        self.gnss.names = v;
                    },
                    RecordClass::Home => {
                        self.home.names = v;
                    },
                }
            },
            Frame::FieldSignedness(class, v) => {
                match class {
                    RecordClass::Intra => {
                        self.intra.signedness = v;
                    },
                    RecordClass::Predicted => {},
                    RecordClass::Slow => {
                        self.slow.signedness = v;
                    },
                    RecordClass::Gnss => {
                        self.gnss.signedness = v;
                    },
                    RecordClass::Home => {
                        self.home.signedness = v;
                    },
                }
            },
            Frame::FieldEncoding(class, v) => {
                match class {
                    RecordClass::Intra => {
                        self.intra.encoding = v;
                    },
                    RecordClass::Predicted => {
                        self.predicted.encoding = v;
                    },
                    RecordClass::Slow => {
                        self.slow.encoding = v;
                    },
                    RecordClass::Gnss => {
                        self.gnss.encoding = v;
                    },
                    RecordClass::Home => {
                        self.home.encoding = v;
                    },
                }
            },
            Frame::FieldPredictor(class, v) => {
                match class {
                    RecordClass::Intra => {
                        self.intra.predictors = v;
                    },
                    RecordClass::Predicted => {
                        self.predicted.predictors = v;
                    },
                    RecordClass::Slow => {
                        self.slow.predictors = v;
                    },
                    RecordClass::Gnss => {
                        self.gnss.predictors = v;
                    },
                    RecordClass::Home => {
                        self.home.predictors = v;
                    },
                }
            },
        }
    }
}

} // verus!
