//! Handles to loaded models and the per-instance settings they are drawn
//! with.

use vstd::prelude::*;
use crate::component_store::ComponentKey;
use crate::space::{Quaternion, Vector3};
use crate::transforms::{ModelTransform, TransformType};

verus! {

/// The size to draw a model at, per axis; an axis without a size keeps the
/// model's own. Sizes are carried encoded.
#[derive(Clone, Copy, Debug, PartialEq, Eq, Structural)]
pub struct ModelDims {
    pub width: Option<u32>,
    pub height: Option<u32>,
    pub depth: Option<u32>,
}

impl ModelDims {
    pub fn new(width: u32, height: u32, depth: u32) -> (d: ModelDims)
        ensures
            d == (ModelDims { width: Some(width), height: Some(height), depth: Some(depth) }),
    {
        ModelDims { width: Some(width), height: Some(height), depth: Some(depth) }
    }

    pub fn empty() -> (d: ModelDims)
        ensures
            d == (ModelDims { width: None, height: None, depth: None }),
    {
        ModelDims { width: None, height: None, depth: None }
    }

    pub fn from_width(width: u32) -> (d: ModelDims)
        ensures
            d == (ModelDims { width: Some(width), height: None, depth: None }),
    {
        ModelDims { width: Some(width), depth: None, height: None }
    }

    pub fn from_height(height: u32) -> (d: ModelDims)
        ensures
            d == (ModelDims { width: None, height: Some(height), depth: None }),
    {
        ModelDims { height: Some(height), depth: None, width: None }
    }

    pub fn from_depth(depth: u32) -> (d: ModelDims)
        ensures
            d == (ModelDims { width: None, height: None, depth: Some(depth) }),
    {
        ModelDims { depth: Some(depth), height: None, width: None }
    }

    pub fn set_width(&mut self, width: u32)
        ensures
            *final(self) == (ModelDims { width: Some(width), ..*old(self) }),
    {
        self.width = Some(width)
    }

    pub fn set_height(&mut self, height: u32)
        ensures
            *final(self) == (ModelDims { height: Some(height), ..*old(self) }),
    {
        self.height = Some(height)
    }

    pub fn set_depth(&mut self, depth: u32)
        ensures
            *final(self) == (ModelDims { depth: Some(depth), ..*old(self) }),
    {
        self.depth = Some(depth)
    }
}

/// The opacity of an instance that is given none: the encoding of one.
pub const FULL_OPACITY: u32 = 0x3F80_0000;

/// The element of a list for instance `i`, or `fallback` where the list is
/// absent or too short.
pub open spec fn element_or<T>(list: Option<Seq<T>>, i: int, fallback: T) -> T {
    match list {
        Some(l) => if 0 <= i < l.len() {
            l[i]
        } else {
            fallback
        },
        None => fallback,
    }
}

/// The element of a list for instance `i`: see [`element_or`].
pub fn pick_or<T: Copy>(list: &Option<Vec<T>>, i: usize, fallback: T) -> (r: T)
    ensures
        r == element_or(list_view(*list), i as int, fallback),
{
    match list {
        Some(l) => if i < l.len() {
            l[i]
        } else {
            fallback
        },
        None => fallback,
    }
}

/// How a model is drawn: how many instances, and per instance its opacity
/// (encoded), size and pose. A list that is absent means the default for
/// every instance.
#[derive(Clone, Debug, PartialEq)]
pub struct RenderSettings {
    pub instances: usize,
    pub opacities: Option<Vec<u32>>,
    pub dims: Option<Vec<ModelDims>>,
    pub transforms: Option<Vec<ModelTransform>>,
}

/// Render settings as plain values.
pub struct RenderSettingsView {
    pub instances: usize,
    pub opacities: Option<Seq<u32>>,
    pub dims: Option<Seq<ModelDims>>,
    pub transforms: Option<Seq<ModelTransform>>,
}

/// A list, if present, as a sequence.
pub open spec fn list_view<T>(list: Option<Vec<T>>) -> Option<Seq<T>> {
    match list {
        Some(v) => Some(v@),
        None => None,
    }
}

/// `n` times the same value.
pub open spec fn repeated<T>(value: T, n: usize) -> Seq<T> {
    Seq::new(n as nat, |i: int| value)
}

impl View for RenderSettings {
    type V = RenderSettingsView;

    open spec fn view(&self) -> RenderSettingsView {
        RenderSettingsView {
            instances: self.instances,
            opacities: list_view(self.opacities),
            dims: list_view(self.dims),
            transforms: list_view(self.transforms),
        }
    }
}

/// A list of `n` copies of `value`.
pub fn repeat_value<T: Copy>(value: T, n: usize) -> (list: Vec<T>)
    ensures
        list@ == repeated(value, n),
{
    let mut list: Vec<T> = Vec::new();
    while list.len() < n
        invariant
            list.len() <= n,
            forall|i: int| 0 <= i < list.len() ==> #[trigger] list[i] == value,
        decreases n - list.len(),
    {
        list.push(value);
    }
    proof {
        assert(list@ =~= repeated(value, n));
    }
    list
}

/// A copy of a list.
pub fn copy_list<T: Copy>(list: &Vec<T>) -> (copy: Vec<T>)
    ensures
        copy@ == list@,
{
    let mut copy: Vec<T> = Vec::new();
    let mut k: usize = 0;
    while k < list.len()
        invariant
            k <= list.len(),
            copy@ == list@.take(k as int),
        decreases list.len() - k,
    {
        copy.push(list[k]);
        proof {
            assert(list@.take(k + 1) =~= list@.take(k as int).push(list[k as int]));
        }
        k = k + 1;
    }
    proof {
        assert(list@.take(k as int) =~= list@);
    }
    copy
}

/// A copy of a list that may be absent.
pub fn copy_optional<T: Copy>(list: &Option<Vec<T>>) -> (copy: Option<Vec<T>>)
    ensures
        list_view(copy) == list_view(*list),
{
    match list {
        Some(v) => Some(copy_list(v)),
        None => None,
    }
}

impl RenderSettings {
    /// One instance, all defaults.
    pub fn default() -> (s: RenderSettings)
        ensures
            s@ == (RenderSettingsView {
                instances: 1,
                opacities: None,
                dims: None,
                transforms: None,
            }),
    {
        RenderSettings { instances: 1, opacities: None, dims: None, transforms: None }
    }

    /// The pose of instance `i`: the one given for it, or the default pose.
    pub fn instance_transform(&self, i: usize) -> (t: ModelTransform)
        ensures
            t == element_or(
                self@.transforms,
                i as int,
                ModelTransform {
                    transform_type: TransformType::Local,
                    pos: Vector3 { x: 0, y: 0, z: 0 },
                    rot: Quaternion { s: 0, x: 0, y: 0, z: 0 },
                },
            ),
    {
        pick_or(&self.transforms, i, ModelTransform::default())
    }

    /// The size of instance `i`: the one given for it, or a size that keeps
    /// the model's own along every axis.
    pub fn instance_dims(&self, i: usize) -> (d: ModelDims)
        ensures
            d == element_or(
                self@.dims,
                i as int,
                ModelDims { width: None, height: None, depth: None },
            ),
    {
        pick_or(&self.dims, i, ModelDims::empty())
    }

    /// The opacity of instance `i`: the one given for it, or full opacity.
    pub fn instance_opacity(&self, i: usize) -> (o: u32)
        ensures
            o == element_or(self@.opacities, i as int, FULL_OPACITY),
    {
        pick_or(&self.opacities, i, FULL_OPACITY)
    }

    /// A copy of the settings.
    pub fn duplicate(&self) -> (s: RenderSettings)
        ensures
            s@ == self@,
    {
        RenderSettings {
            instances: self.instances,
            opacities: copy_optional(&self.opacities),
            dims: copy_optional(&self.dims),
            transforms: copy_optional(&self.transforms),
        }
    }
}

/// A handle to a model loaded for an entity.
#[derive(Debug, PartialEq, Eq, Hash)]
pub struct RenderableModel {
    pub index: u32,
    pub component: ComponentKey,
    pub filename: String,
}

impl Clone for RenderableModel {
    fn clone(&self) -> (model: RenderableModel)
        ensures
            model == *self,
    {
        RenderableModel {
            index: self.index,
            component: self.component,
            filename: self.filename.clone(),
        }
    }
}

/// A model together with the settings to draw it with.
#[derive(Clone, Debug, PartialEq)]
pub struct RenderableModelWithSettings(pub RenderableModel, pub RenderSettings);

/// Settings for one instance with everything at its default.
pub open spec fn single() -> RenderSettingsView {
    RenderSettingsView { instances: 1, opacities: None, dims: None, transforms: None }
}

impl RenderableModel {
    /// The handle for the model that was loaded from `filename` as number
    /// `index` for the entity `key`.
    pub fn new(index: u32, key: ComponentKey, filename: &str) -> (model: RenderableModel)
        ensures
            model.index == index,
            model.component == key,
            model.filename@ == filename@,
    {
        RenderableModel { index, component: key, filename: filename.to_owned() }
    }

    /// The model drawn `num_instances` times, all defaults.
    pub fn instanced(&self, num_instances: u32) -> (r: RenderableModelWithSettings)
        ensures
            r.0 == *self,
            r.1@ == (RenderSettingsView { instances: num_instances as usize, ..single() }),
            r.1.instances == num_instances,
    {
        let render_settings = RenderSettings {
            instances: num_instances as usize,
            transforms: None,
            dims: None,
            opacities: None,
        };
        RenderableModelWithSettings(self.clone(), render_settings)
    }

    /// The model drawn once, at the given pose.
    pub fn transform(&self, transform: ModelTransform) -> (r: RenderableModelWithSettings)
        ensures
            r.0 == *self,
            r.1@ == (RenderSettingsView { transforms: Some(seq![transform]), ..single() }),
    {
        let list = vec![transform];
        proof {
            assert(list@ =~= seq![transform]);
        }
        let render_settings = RenderSettings {
            instances: 1,
            transforms: Some(list),
            dims: None,
            opacities: None,
        };
        RenderableModelWithSettings(self.clone(), render_settings)
    }

    /// The model drawn once, with the given opacity.
    pub fn opacity(&self, opacity: u32) -> (r: RenderableModelWithSettings)
        ensures
            r.0 == *self,
            r.1@ == (RenderSettingsView { opacities: Some(seq![opacity]), ..single() }),
    {
        let list = vec![opacity];
        proof {
            assert(list@ =~= seq![opacity]);
        }
        let render_settings = RenderSettings {
            instances: 1,
            transforms: None,
            dims: None,
            opacities: Some(list),
        };
        RenderableModelWithSettings(self.clone(), render_settings)
    }

    /// The model drawn once, at the given size.
    pub fn dims(&self, dims: ModelDims) -> (r: RenderableModelWithSettings)
        ensures
            r.0 == *self,
            r.1@ == (RenderSettingsView { dims: Some(seq![dims]), ..single() }),
    {
        let list = vec![dims];
        proof {
            assert(list@ =~= seq![dims]);
        }
        let render_settings = RenderSettings {
            instances: 1,
            transforms: None,
            dims: Some(list),
            opacities: None,
        };
        RenderableModelWithSettings(self.clone(), render_settings)
    }

    /// The model drawn once, at the given width.
    pub fn width(&self, width: u32) -> (r: RenderableModelWithSettings)
        ensures
            r.0 == *self,
            r.1@ == (RenderSettingsView {
                dims: Some(seq![ModelDims { width: Some(width), height: None, depth: None }]),
                ..single()
            }),
    {
        self.dims(ModelDims::from_width(width))
    }

    /// The model drawn once, at the given height.
    pub fn height(&self, height: u32) -> (r: RenderableModelWithSettings)
        ensures
            r.0 == *self,
            r.1@ == (RenderSettingsView {
                dims: Some(seq![ModelDims { width: None, height: Some(height), depth: None }]),
                ..single()
            }),
    {
        self.dims(ModelDims::from_height(height))
    }

    /// The model drawn once, at the given depth.
    pub fn depth(&self, depth: u32) -> (r: RenderableModelWithSettings)
        ensures
            r.0 == *self,
            r.1@ == (RenderSettingsView {
                dims: Some(seq![ModelDims { width: None, height: None, depth: Some(depth) }]),
                ..single()
            }),
    {
        self.dims(ModelDims::from_depth(depth))
    }
}

/// The sizes that setting one axis starts from: the sizes already there, or
/// for every instance the given one.
pub open spec fn dims_or(dims: Option<Seq<ModelDims>>, fallback: ModelDims, instances: usize) -> Seq<
    ModelDims,
> {
    match dims {
        Some(d) => d,
        None => repeated(fallback, instances),
    }
}

/// What a list given per instance becomes for `instances` instances: absent
/// where the list is empty, else cut or filled up with its last element.
pub open spec fn fitted<T>(list: Seq<T>, instances: usize) -> Option<Seq<T>> {
    if list.len() == 0 {
        None
    } else {
        Some(
            Seq::new(
                instances as nat,
                |i: int|
                    if i < list.len() {
                        list[i]
                    } else {
                        list.last()
                    },
            ),
        )
    }
}

/// A list cut or filled up to `instances` elements: see [`fitted`].
pub fn fit_list<T: Copy>(list: &Vec<T>, instances: usize) -> (r: Option<Vec<T>>)
    ensures
        list_view(r) == fitted(list@, instances),
{
    if list.len() == 0 {
        return None;
    }
    let last = list[list.len() - 1];
    let mut safe: Vec<T> = Vec::new();
    while safe.len() < instances
        invariant
            safe.len() <= instances,
            list.len() > 0,
            last == list@.last(),
            forall|i: int|
                0 <= i < safe.len() ==> #[trigger] safe[i] == if i < list.len() {
                    list[i]
                } else {
                    last
                },
        decreases instances - safe.len(),
    {
        let k = safe.len();
        if k < list.len() {
            safe.push(list[k]);
        } else {
            safe.push(last);
        }
    }
    proof {
        assert(safe@ =~= fitted(list@, instances)->0);
    }
    Some(safe)
}

impl RenderableModelWithSettings {
    /// The same model with every instance at the given pose.
    pub fn transform(&self, transform: ModelTransform) -> (r: RenderableModelWithSettings)
        ensures
            r.0 == self.0,
            r.1@ == (RenderSettingsView {
                transforms: Some(repeated(transform, self.1.instances)),
                ..self.1@
            }),
    {
        let mut render_settings = self.1.duplicate();
        render_settings.transforms = Some(repeat_value(transform, self.1.instances));
        RenderableModelWithSettings(self.0.clone(), render_settings)
    }

    /// The same model with every instance at the given opacity.
    pub fn opacity(&self, opacity: u32) -> (r: RenderableModelWithSettings)
        ensures
            r.0 == self.0,
            r.1@ == (RenderSettingsView {
                opacities: Some(repeated(opacity, self.1.instances)),
                ..self.1@
            }),
    {
        let mut render_settings = self.1.duplicate();
        render_settings.opacities = Some(repeat_value(opacity, self.1.instances));
        RenderableModelWithSettings(self.0.clone(), render_settings)
    }

    /// The same model with every instance at the given size.
    pub fn dims(&self, dims: ModelDims) -> (r: RenderableModelWithSettings)
        ensures
            r.0 == self.0,
            r.1@ == (RenderSettingsView {
                dims: Some(repeated(dims, self.1.instances)),
                ..self.1@
            }),
    {
        let mut render_settings = self.1.duplicate();
        render_settings.dims = Some(repeat_value(dims, self.1.instances));
        RenderableModelWithSettings(self.0.clone(), render_settings)
    }

    /// The same model with the width of every size set; where no sizes were
    /// given, every instance gets a size with only the width.
    pub fn width(&self, width: u32) -> (r: RenderableModelWithSettings)
        ensures
            r.0 == self.0,
            r.1@ == (RenderSettingsView {
                dims: Some(
                    dims_or(
                        self.1@.dims,
                        ModelDims { width: Some(width), height: None, depth: None },
                        self.1.instances,
                    ).map_values(|d: ModelDims| ModelDims { width: Some(width), ..d }),
                ),
                ..self.1@
            }),
    {
        let mut render_settings = self.1.duplicate();
        let mut dims = match render_settings.dims {
            Some(d) => d,
            None => repeat_value(ModelDims::from_width(width), self.1.instances),
        };
        let ghost start = dims@;
        let mut k: usize = 0;
        while k < dims.len()
            invariant
                k <= dims.len(),
                dims.len() == start.len(),
                forall|i: int|
                    0 <= i < k ==> #[trigger] dims[i] == (ModelDims {
                        width: Some(width),
                        ..start[i]
                    }),
                forall|i: int| k <= i < dims.len() ==> #[trigger] dims[i] == start[i],
            decreases dims.len() - k,
        {
            let slot = &mut dims[k];
            slot.set_width(width);
            k = k + 1;
        }
        proof {
            assert(dims@ =~= start.map_values(|d: ModelDims| ModelDims { width: Some(width), ..d }));
        }
        render_settings.dims = Some(dims);
        RenderableModelWithSettings(self.0.clone(), render_settings)
    }

    /// The same model with the height of every size set; where no sizes were
    /// given, every instance gets a size with only the height.
    pub fn height(&self, height: u32) -> (r: RenderableModelWithSettings)
        ensures
            r.0 == self.0,
            r.1@ == (RenderSettingsView {
                dims: Some(
                    dims_or(
                        self.1@.dims,
                        ModelDims { width: None, height: Some(height), depth: None },
                        self.1.instances,
                    ).map_values(|d: ModelDims| ModelDims { height: Some(height), ..d }),
                ),
                ..self.1@
            }),
    {
        let mut render_settings = self.1.duplicate();
        let mut dims = match render_settings.dims {
            Some(d) => d,
            None => repeat_value(ModelDims::from_height(height), self.1.instances),
        };
        let ghost start = dims@;
        let mut k: usize = 0;
        while k < dims.len()
            invariant
                k <= dims.len(),
                dims.len() == start.len(),
                forall|i: int|
                    0 <= i < k ==> #[trigger] dims[i] == (ModelDims {
                        height: Some(height),
                        ..start[i]
                    }),
                forall|i: int| k <= i < dims.len() ==> #[trigger] dims[i] == start[i],
            decreases dims.len() - k,
        {
            let slot = &mut dims[k];
            slot.set_height(height);
            k = k + 1;
        }
        proof {
            assert(dims@ =~= start.map_values(
                |d: ModelDims| ModelDims { height: Some(height), ..d },
            ));
        }
        render_settings.dims = Some(dims);
        RenderableModelWithSettings(self.0.clone(), render_settings)
    }

    /// The same model with the depth of every size set; where no sizes were
    /// given, every instance gets a size with only the depth.
    pub fn depth(&self, depth: u32) -> (r: RenderableModelWithSettings)
        ensures
            r.0 == self.0,
            r.1@ == (RenderSettingsView {
                dims: Some(
                    dims_or(
                        self.1@.dims,
                        ModelDims { width: None, height: None, depth: Some(depth) },
                        self.1.instances,
                    ).map_values(|d: ModelDims| ModelDims { depth: Some(depth), ..d }),
                ),
                ..self.1@
            }),
    {
        let mut render_settings = self.1.duplicate();
        let mut dims = match render_settings.dims {
            Some(d) => d,
            None => repeat_value(ModelDims::from_depth(depth), self.1.instances),
        };
        let ghost start = dims@;
        let mut k: usize = 0;
        while k < dims.len()
            invariant
                k <= dims.len(),
                dims.len() == start.len(),
                forall|i: int|
                    0 <= i < k ==> #[trigger] dims[i] == (ModelDims {
                        depth: Some(depth),
                        ..start[i]
                    }),
                forall|i: int| k <= i < dims.len() ==> #[trigger] dims[i] == start[i],
            decreases dims.len() - k,
        {
            let slot = &mut dims[k];
            slot.set_depth(depth);
            k = k + 1;
        }
        proof {
            assert(dims@ =~= start.map_values(|d: ModelDims| ModelDims { depth: Some(depth), ..d }));
        }
        render_settings.dims = Some(dims);
        RenderableModelWithSettings(self.0.clone(), render_settings)
    }

    /// The same model with the poses given per instance: cut to the number of
    /// instances, or filled up with the last; an empty list means no poses.
    pub fn transform_instanced(&self, transforms: &Vec<ModelTransform>) -> (r:
        RenderableModelWithSettings)
        ensures
            r.0 == self.0,
            r.1@ == (RenderSettingsView {
                transforms: fitted(transforms@, self.1.instances),
                ..self.1@
            }),
    {
        let mut render_settings = self.1.duplicate();
        render_settings.transforms = fit_list(transforms, self.1.instances);
        RenderableModelWithSettings(self.0.clone(), render_settings)
    }

    /// The same model with the opacities given per instance: cut to the
    /// number of instances, or filled up with the last; an empty list means
    /// no opacities.
    pub fn opacity_instanced(&self, opacities: &Vec<u32>) -> (r: RenderableModelWithSettings)
        ensures
            r.0 == self.0,
            r.1@ == (RenderSettingsView {
                opacities: fitted(opacities@, self.1.instances),
                ..self.1@
            }),
    {
        let mut render_settings = self.1.duplicate();
        render_settings.opacities = fit_list(opacities, self.1.instances);
        RenderableModelWithSettings(self.0.clone(), render_settings)
    }

    /// The same model with the sizes given per instance: cut to the number of
    /// instances, or filled up with the last. An empty list leaves the sizes
    /// as they are and takes the opacities away.
    pub fn dims_instanced(&self, dims: &Vec<ModelDims>) -> (r: RenderableModelWithSettings)
        ensures
            r.0 == self.0,
            r.1@ == if dims@.len() == 0 {
                RenderSettingsView { opacities: None, ..self.1@ }
            } else {
                RenderSettingsView { dims: fitted(dims@, self.1.instances), ..self.1@ }
            },
    {
        let mut render_settings = self.1.duplicate();
        if dims.len() == 0 {
            render_settings.opacities = None;
        } else {
            render_settings.dims = fit_list(dims, self.1.instances);
        }
        RenderableModelWithSettings(self.0.clone(), render_settings)
    }
}

/// Makes a list of per-instance values as long as the number of instances.
///
/// A longer list loses its tail; a shorter one is filled up with clones of
/// its last element. An empty list has no last element and stays empty.
pub fn size_to_fit<T: Clone>(vec: &mut Vec<T>, target_len: usize)
    ensures
        old(vec).len() == 0 ==> final(vec)@ == old(vec)@,
        old(vec).len() > 0 ==> final(vec).len() == target_len,
        forall|i: int|
            0 <= i < old(vec).len() && i < final(vec).len() ==> #[trigger] final(vec)[i] == old(
                vec,
            )[i],
        forall|i: int|
            old(vec).len() <= i < final(vec).len() ==> cloned(
                old(vec)[old(vec).len() - 1],
                #[trigger] final(vec)[i],
            ),
{
    if vec.len() == 0 {
        return ;
    }
    if vec.len() < target_len {
        let start = vec.len();
        while vec.len() < target_len
            invariant
                0 < start <= vec.len() <= target_len,
                start == old(vec).len(),
                forall|i: int| 0 <= i < start ==> #[trigger] vec[i] == old(vec)[i],
                forall|i: int|
                    start <= i < vec.len() ==> cloned(old(vec)[start - 1], #[trigger] vec[i]),
            decreases target_len - vec.len(),
        {
            let last_elem = vec[start - 1].clone();
            vec.push(last_elem);
        }
    } else if vec.len() > target_len {
        vec.truncate(target_len);
    }
}

} // verus!
