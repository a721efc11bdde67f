use vstd::prelude::*;

use crate::message::{Color, ObjectId, ObjectKind, PropKind, PropValue};
use crate::model::{read_kind, read_prop, DocModel};
use crate::transactional_document::TransactionalDocument;
use crate::tree::{is_child, lists_children_in_order};

verus! {

broadcast use vstd::string::group_string_axioms;

/// The document as a consumer renders it.
#[derive(Debug)]
pub struct DocumentMaterial {
    pub id: ObjectId,
    pub name: String,
    pub children: Vec<ObjectId>,
}

#[derive(Debug)]
pub struct OvalMaterial {
    pub id: ObjectId,
    pub name: String,
    pub pos_x: i32,
    pub pos_y: i32,
    pub r_h: i32,
    pub r_v: i32,
    pub fill_color: Color,
    pub index: String,
}

#[derive(Debug)]
pub struct FrameMaterial {
    pub id: ObjectId,
    pub name: String,
    pub pos_x: i32,
    pub pos_y: i32,
    pub w: i32,
    pub h: i32,
    pub index: String,
    pub children: Vec<ObjectId>,
}

#[derive(Debug)]
pub enum ObjectMaterial {
    Document(DocumentMaterial),
    Oval(OvalMaterial),
    Frame(FrameMaterial),
}

/// A string property, or `default` when it is absent or not a string.
pub open spec fn string_or(m: DocModel, id: ObjectId, k: PropKind, default: Seq<char>) -> Seq<char> {
    match read_prop(m, id, k) {
        Some(PropValue::String(s)) => s@,
        _ => default,
    }
}

/// A numeric property, or `default` when it is absent or not a number.
pub open spec fn number_or(m: DocModel, id: ObjectId, k: PropKind, default: i32) -> i32 {
    match read_prop(m, id, k) {
        Some(PropValue::Number(n)) => n,
        _ => default,
    }
}

pub open spec fn color_or_black(m: DocModel, id: ObjectId) -> Color {
    match read_prop(m, id, PropKind::FillColor) {
        Some(PropValue::Color(c)) => c,
        _ => Color { r: 0, g: 0, b: 0 },
    }
}

pub open spec fn untitled() -> Seq<char> {
    seq!['U', 'n', 't', 'i', 't', 'l', 'e', 'd']
}

/// `o` is the material of the oval `id` in `m`.
pub open spec fn oval_material(m: DocModel, id: ObjectId, o: OvalMaterial) -> bool {
    &&& o.id == id
    &&& o.name@ == string_or(m, id, PropKind::Name, untitled())
    &&& o.pos_x == number_or(m, id, PropKind::PosX, 0)
    &&& o.pos_y == number_or(m, id, PropKind::PosY, 0)
    &&& o.r_h == number_or(m, id, PropKind::RadiusH, 10)
    &&& o.r_v == number_or(m, id, PropKind::RadiusV, 10)
    &&& o.fill_color == color_or_black(m, id)
    &&& o.index@ == string_or(m, id, PropKind::Index, seq!['?'])
}

/// `f` is the material of the frame `id` in `m`, its children in sibling order.
pub open spec fn frame_material(m: DocModel, id: ObjectId, f: FrameMaterial) -> bool {
    &&& f.id == id
    &&& f.name@ == string_or(m, id, PropKind::Name, untitled())
    &&& f.pos_x == number_or(m, id, PropKind::PosX, 0)
    &&& f.pos_y == number_or(m, id, PropKind::PosY, 0)
    &&& f.w == number_or(m, id, PropKind::Width, 10)
    &&& f.h == number_or(m, id, PropKind::Height, 10)
    &&& f.index@ == string_or(m, id, PropKind::Index, seq!['?'])
    &&& lists_children_in_order(m, id, f.children@)
}

/// `d` is the material of the document `doc_id` in `m`, its children in sibling order.
pub open spec fn document_material(m: DocModel, doc_id: ObjectId, d: DocumentMaterial) -> bool {
    &&& d.id == doc_id
    &&& d.name@ == string_or(m, doc_id, PropKind::Name, untitled())
    &&& lists_children_in_order(m, doc_id, d.children@)
}

impl TransactionalDocument {
    fn string_or(&self, id: ObjectId, k: PropKind, default: &str) -> (r: String)
        requires
            self.wf(),
        ensures
            r@ == string_or(self.model(), id, k, default@),
    {
        match self.get_string_prop(id, k) {
            Some(s) => s,
            None => default.to_string(),
        }
    }

    fn number_or(&self, id: ObjectId, k: PropKind, default: i32) -> (r: i32)
        requires
            self.wf(),
        ensures
            r == number_or(self.model(), id, k, default),
    {
        match self.get_number_prop(id, k) {
            Some(n) => n,
            None => default,
        }
    }

    /// The document's name ("Untitled" when unnamed) and its children in sibling order.
    pub fn materialize_document(&self) -> (r: DocumentMaterial)
        requires
            self.wf(),
        ensures
            r.id == self.spec_document_id(),
            r.name@ == string_or(self.model(), r.id, PropKind::Name, untitled()),
            forall|c: ObjectId| is_child(self.model(), c, r.id) <==> r.children@.contains(c),
            r.children@.no_duplicates(),
            document_material(self.model(), self.spec_document_id(), r),
    {
        proof {
            reveal_strlit("Untitled");
        }
        let id = self.document_id();
        let name = self.string_or(id, PropKind::Name, "Untitled");
        let children = self.get_children(id);
        DocumentMaterial { id, name, children }
    }

    /// An oval's properties, with their defaults; `Err` when `id` is not a live oval.
    pub fn materialize_oval(&self, id: ObjectId) -> (r: Result<OvalMaterial, ()>)
        requires
            self.wf(),
        ensures
            r is Ok <==> read_kind(self.model(), id) == Some(ObjectKind::Oval),
            r matches Ok(o) ==> oval_material(self.model(), id, o),
    {
        proof {
            reveal_strlit("Untitled");
            reveal_strlit("?");
            assert("Untitled"@ =~= untitled());
            assert("?"@ =~= seq!['?']);
        }
        match self.get_object_kind(id) {
            Some(ObjectKind::Oval) => {},
            _ => {
                return Err(());
            },
        }
        let fill_color = match self.get_color_prop(id, PropKind::FillColor) {
            Some(c) => c,
            None => Color { r: 0, g: 0, b: 0 },
        };
        let o = OvalMaterial {
            id,
            name: self.string_or(id, PropKind::Name, "Untitled"),
            pos_x: self.number_or(id, PropKind::PosX, 0),
            pos_y: self.number_or(id, PropKind::PosY, 0),
            r_h: self.number_or(id, PropKind::RadiusH, 10),
            r_v: self.number_or(id, PropKind::RadiusV, 10),
            fill_color,
            index: self.string_or(id, PropKind::Index, "?"),
        };
        assert(oval_material(self.model(), id, o));
        Ok(o)
    }

    /// A frame's properties, with their defaults, and its children in sibling order; `Err`
    /// when `id` is not a live frame.
    pub fn materialize_frame(&self, id: ObjectId) -> (r: Result<FrameMaterial, ()>)
        requires
            self.wf(),
        ensures
            r is Ok <==> read_kind(self.model(), id) == Some(ObjectKind::Frame),
            r matches Ok(f) ==> frame_material(self.model(), id, f),
    {
        proof {
            reveal_strlit("Untitled");
            reveal_strlit("?");
            assert("Untitled"@ =~= untitled());
            assert("?"@ =~= seq!['?']);
        }
        match self.get_object_kind(id) {
            Some(ObjectKind::Frame) => {},
            _ => {
                return Err(());
            },
        }
        let f = FrameMaterial {
            id,
            name: self.string_or(id, PropKind::Name, "Untitled"),
            pos_x: self.number_or(id, PropKind::PosX, 0),
            pos_y: self.number_or(id, PropKind::PosY, 0),
            w: self.number_or(id, PropKind::Width, 10),
            h: self.number_or(id, PropKind::Height, 10),
            index: self.string_or(id, PropKind::Index, "?"),
            children: self.get_children(id),
        };
        assert(frame_material(self.model(), id, f));
        Ok(f)
    }

    /// The material of any live object, by its kind; `Err` when `id` is not live.
    pub fn materialize_object(&self, id: ObjectId) -> (r: Result<ObjectMaterial, ()>)
        requires
            self.wf(),
        ensures
            r is Ok <==> read_kind(self.model(), id) is Some,
            r matches Ok(ObjectMaterial::Oval(o)) ==> read_kind(self.model(), id) == Some(ObjectKind::Oval)
                && oval_material(self.model(), id, o),
            r matches Ok(ObjectMaterial::Frame(f)) ==> read_kind(self.model(), id) == Some(ObjectKind::Frame)
                && frame_material(self.model(), id, f),
            r matches Ok(ObjectMaterial::Document(d)) ==> read_kind(self.model(), id) == Some(ObjectKind::Document)
                && document_material(self.model(), self.spec_document_id(), d),
            read_kind(self.model(), id) == Some(ObjectKind::Oval) ==> r matches Ok(ObjectMaterial::Oval(_)),
            read_kind(self.model(), id) == Some(ObjectKind::Frame) ==> r matches Ok(ObjectMaterial::Frame(_)),
            read_kind(self.model(), id) == Some(ObjectKind::Document) ==> r matches Ok(ObjectMaterial::Document(_)),
    {
        match self.get_object_kind(id) {
            Some(ObjectKind::Document) => Ok(ObjectMaterial::Document(self.materialize_document())),
            Some(ObjectKind::Oval) => match self.materialize_oval(id) {
                Ok(o) => Ok(ObjectMaterial::Oval(o)),
                Err(_) => Err(()),
            },
            Some(ObjectKind::Frame) => match self.materialize_frame(id) {
                Ok(f) => Ok(ObjectMaterial::Frame(f)),
                Err(_) => Err(()),
            },
            None => Err(()),
        }
    }
}

} // verus!
