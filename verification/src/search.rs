//! Search: the images of the index, the best first.

use vstd::prelude::*;

use crate::config::AppSettings;
use crate::db::SearchImageRecord;
use crate::order;
use crate::order::{stable_order, SortKey};
use crate::text;
use crate::text::signed_decimal_text;

verus! {

/// Why nothing could be searched.
#[derive(Clone, Debug, PartialEq, Eq)]
pub enum SearchError {
    /// The model or the directory of the images is not set.
    NotReady,
    /// The index is empty.
    NoIndex,
    /// A vector of the index has not as many components as the model gives.
    DimsMismatch,
    /// An image could not be scored. It holds the path of the image, and why.
    ScoreFailed(String, String),
}

impl SearchError {
    /// The message of the error.
    pub open spec fn text(&self) -> Seq<char> {
        match self {
            SearchError::NotReady => "请先保存 MODEL_PATH 和素材目录"@,
            SearchError::NoIndex => "请先建立索引"@,
            SearchError::DimsMismatch => "索引向量与当前模型不匹配，请重新建立索引"@,
            SearchError::ScoreFailed(path, cause) => "failed to score image "@ + path@ + ": "@
                + cause@,
        }
    }

    /// The message of the error.
    pub fn message(&self) -> (r: String)
        ensures
            r@ == self.text(),
    {
        match self {
            SearchError::NotReady => "请先保存 MODEL_PATH 和素材目录".to_owned(),
            SearchError::NoIndex => "请先建立索引".to_owned(),
            SearchError::DimsMismatch => "索引向量与当前模型不匹配，请重新建立索引".to_owned(),
            SearchError::ScoreFailed(path, cause) => {
                let head = "failed to score image ".to_owned();
                head.concat(path.as_str()).concat(": ").concat(cause.as_str())
            },
        }
    }
}

/// Whether the settings name a model and a directory of images.
pub open spec fn is_ready(settings: AppSettings) -> bool {
    settings.model_path@.len() > 0 && settings.asset_dir@.len() > 0
}

/// Sees to it that the settings name a model and a directory of images.
pub fn check_ready(settings: &AppSettings) -> (r: Result<(), SearchError>)
    ensures
        match r {
            Ok(()) => is_ready(*settings),
            Err(e) => !is_ready(*settings) && e == SearchError::NotReady,
        },
{
    if settings.model_path.as_str().is_empty() || settings.asset_dir.as_str().is_empty() {
        Err(SearchError::NotReady)
    } else {
        Ok(())
    }
}

/// An image and how near it is to what is searched: the bits of an IEEE 754 single, or why it
/// has no score.
#[derive(Debug)]
pub struct ScoredImage {
    pub image: SearchImageRecord,
    pub score: Result<u32, String>,
}

/// An image that was found. Its score is given by the bits of an IEEE 754 single.
#[derive(Clone, Debug)]
pub struct SearchItem {
    pub id: i64,
    pub score: u32,
    pub file_name: String,
    pub path: String,
    pub image_url: String,
}

/// Where the IEEE 754 single with the bits `bits` stands in the total order of singles.
pub open spec fn score_rank(bits: u32) -> int {
    if bits < 0x8000_0000 {
        bits as int
    } else {
        0x8000_0000 - bits - 1
    }
}

fn rank_of(bits: u32) -> (r: i64)
    ensures
        r == score_rank(bits),
{
    if bits < 0x8000_0000 {
        bits as i64
    } else {
        0x8000_0000i64 - bits as i64 - 1
    }
}

/// A score, by which images are sorted: the highest first.
pub struct ScoreKey {
    pub bits: u32,
}

impl SortKey for ScoreKey {
    open spec fn lt(&self, other: &Self) -> bool {
        score_rank(self.bits) > score_rank(other.bits)
    }

    proof fn is_order(a: &Self, b: &Self, c: &Self) {
    }

    fn is_before(&self, other: &Self) -> (r: bool) {
        rank_of(self.bits) > rank_of(other.bits)
    }
}

/// What is wrong with an image, if anything is, where the query has `dims` components.
pub open spec fn image_problem(dims: usize, x: ScoredImage) -> Option<Seq<char>> {
    if x.image.dims != dims || x.image.vector@.len() != dims {
        Some(SearchError::DimsMismatch.text())
    } else {
        match x.score {
            Ok(_) => None,
            Err(cause) => Some("failed to score image "@ + x.image.path@ + ": "@ + cause@),
        }
    }
}

/// The scores of the images.
pub open spec fn score_keys(images: Seq<ScoredImage>) -> Seq<ScoreKey> {
    images.map_values(
        |x: ScoredImage|
            ScoreKey {
                bits: match x.score {
                    Ok(bits) => bits,
                    Err(_) => 0,
                },
            },
    )
}

/// Whether `item` is how the image `x` is handed out.
pub open spec fn is_item_of(item: SearchItem, x: ScoredImage) -> bool {
    &&& item.id == x.image.id
    &&& x.score == Ok::<u32, String>(item.score)
    &&& item.file_name@ == x.image.file_name@
    &&& item.path@ == x.image.path@
    &&& item.image_url@ == "/api/images/"@ + text::signed_decimal(x.image.id as int)
}

/// Whether `items` are the first of the images, at most `limit` of them, in the order `order`,
/// which is that of a stable sort by their scores.
pub open spec fn is_ranking(
    items: Seq<SearchItem>,
    images: Seq<ScoredImage>,
    limit: usize,
    order: Seq<usize>,
) -> bool {
    &&& order::is_stable_order(score_keys(images), order)
    &&& items.len() == if limit <= images.len() {
        limit as int
    } else {
        images.len() as int
    }
    &&& forall|k: int|
        0 <= k < items.len() ==> is_item_of(#[trigger] items[k], images[order[k] as int])
}

/// Whether `items` are the best of the images, at most `limit` of them, the best first. Images
/// with the same score keep their order.
pub open spec fn are_best(items: Seq<SearchItem>, images: Seq<ScoredImage>, limit: usize) -> bool {
    exists|order: Seq<usize>| #[trigger] is_ranking(items, images, limit, order)
}

/// The images that are nearest to a query whose vector has `query_dims` components: at most
/// `limit` of them, the best first. The first image that something is wrong with decides.
pub fn run_search(
    settings: &AppSettings,
    query_dims: usize,
    images: &Vec<ScoredImage>,
    limit: usize,
) -> (r: Result<Vec<SearchItem>, SearchError>)
    ensures
        if !is_ready(*settings) {
            r matches Err(e) && e == SearchError::NotReady
        } else if images@.len() == 0 {
            r matches Err(e) && e == SearchError::NoIndex
        } else {
            match r {
                Ok(items) => {
                    &&& forall|i: int|
                        0 <= i < images@.len() ==> image_problem(
                            query_dims,
                            #[trigger] images@[i],
                        ) is None
                    &&& are_best(items@, images@, limit)
                },
                Err(e) => exists|i: int|
                    {
                        &&& 0 <= i < images@.len()
                        &&& image_problem(query_dims, #[trigger] images@[i]) == Some(e.text())
                        &&& forall|j: int|
                            0 <= j < i ==> image_problem(query_dims, #[trigger] images@[j]) is None
                    },
            }
        },
{
    match check_ready(settings) {
        Ok(()) => {},
        Err(e) => return Err(e),
    }
    if images.len() == 0 {
        return Err(SearchError::NoIndex);
    }
    let mut keys: Vec<ScoreKey> = Vec::new();
    let mut i: usize = 0;
    while i < images.len()
        invariant
            i <= images@.len(),
            is_ready(*settings),
            images@.len() > 0,
            keys@ == score_keys(images@).take(i as int),
            forall|j: int| 0 <= j < i ==> image_problem(query_dims, #[trigger] images@[j]) is None,
        decreases images@.len() - i,
    {
        let x = &images[i];
        if x.image.dims != query_dims || x.image.vector.len() != query_dims {
            assert(image_problem(query_dims, images@[i as int]) == Some(
                SearchError::DimsMismatch.text(),
            ));
            return Err(SearchError::DimsMismatch);
        }
        match &x.score {
            Ok(bits) => {
                keys.push(ScoreKey { bits: *bits });
                assert(keys@ =~= score_keys(images@).take(i + 1));
            },
            Err(cause) => {
                let e = SearchError::ScoreFailed(x.image.path.clone(), cause.clone());
                assert(image_problem(query_dims, images@[i as int]) == Some(e.text()));
                return Err(e);
            },
        }
        i += 1;
    }
    assert(keys@ =~= score_keys(images@));
    let order = stable_order(&keys);
    let mut items: Vec<SearchItem> = Vec::new();
    let mut k: usize = 0;
    while k < order.len() && k < limit
        invariant
            k <= order@.len(),
            k <= limit,
            order@.len() == images@.len(),
            forall|j: int| 0 <= j < order@.len() ==> #[trigger] order@[j] < images@.len(),
            forall|j: int|
                0 <= j < images@.len() ==> image_problem(query_dims, #[trigger] images@[j]) is None,
            items@.len() == k,
            forall|j: int|
                0 <= j < k ==> is_item_of(#[trigger] items@[j], images@[order@[j] as int]),
        decreases order@.len() - k,
    {
        let x = &images[order[k]];
        assert(image_problem(query_dims, images@[order@[k as int] as int]) is None);
        let score: u32 = match &x.score {
            Ok(bits) => *bits,
            Err(_) => 0,
        };
        let head = "/api/images/".to_owned();
        let image_url = head.concat(signed_decimal_text(x.image.id).as_str());
        items.push(
            SearchItem {
                id: x.image.id,
                score,
                file_name: x.image.file_name.clone(),
                path: x.image.path.clone(),
                image_url,
            },
        );
        k += 1;
    }
    assert(is_ranking(items@, images@, limit, order@));
    Ok(items)
}

/// Of two images that were found, the one that stands first has no lower score.
pub proof fn law_best_come_first(
    items: Seq<SearchItem>,
    images: Seq<ScoredImage>,
    limit: usize,
    i: int,
    j: int,
)
    requires
        are_best(items, images, limit),
        0 <= i < j < items.len(),
    ensures
        score_rank(items[i].score) >= score_rank(items[j].score),
{
    let keys = score_keys(images);
    let order = choose|order: Seq<usize>| #[trigger] is_ranking(items, images, limit, order);
    assert(order::before(keys, order[i] as int, order[j] as int));
    assert(is_item_of(items[i], images[order[i] as int]));
    assert(is_item_of(items[j], images[order[j] as int]));
}

/// No image that was left out has a higher score than one that was found.
pub proof fn law_no_better_image_is_left_out(
    items: Seq<SearchItem>,
    images: Seq<ScoredImage>,
    limit: usize,
    i: int,
    left_out: int,
)
    requires
        images.len() <= usize::MAX,
        are_best(items, images, limit),
        0 <= i < items.len(),
        0 <= left_out < images.len(),
        images[left_out].score is Ok,
        forall|k: int| 0 <= k < items.len() ==> !is_item_of(#[trigger] items[k], images[left_out]),
    ensures
        score_rank(items[i].score) >= score_rank(images[left_out].score->Ok_0),
{
    let keys = score_keys(images);
    let order = choose|order: Seq<usize>| #[trigger] is_ranking(items, images, limit, order);
    assert(order.contains(left_out as usize));
    let place = choose|place: int| 0 <= place < order.len() && order[place] == left_out as usize;
    if place < items.len() {
        assert(is_item_of(items[place], images[order[place] as int]));
        assert(false);
    }
    assert(order::before(keys, order[i] as int, order[place] as int));
    assert(is_item_of(items[i], images[order[i] as int]));
}

/// The images, the limit and nothing else decide what is found.
pub proof fn law_best_are_determined(
    a: Seq<SearchItem>,
    b: Seq<SearchItem>,
    images: Seq<ScoredImage>,
    limit: usize,
    k: int,
)
    requires
        images.len() <= usize::MAX,
        are_best(a, images, limit),
        are_best(b, images, limit),
        0 <= k < a.len(),
    ensures
        a.len() == b.len(),
        a[k].id == b[k].id,
        a[k].score == b[k].score,
        a[k].path@ == b[k].path@,
        a[k].file_name@ == b[k].file_name@,
        a[k].image_url@ == b[k].image_url@,
{
    let keys = score_keys(images);
    let x = choose|order: Seq<usize>| #[trigger] is_ranking(a, images, limit, order);
    let y = choose|order: Seq<usize>| #[trigger] is_ranking(b, images, limit, order);
    order::law_stable_order_is_unique(keys, x, y);
    assert(is_item_of(a[k], images[x[k] as int]));
    assert(is_item_of(b[k], images[y[k] as int]));
}

/// Of two scores that are not negative the one with the larger bits ranks higher, of two
/// negative ones the one with the smaller bits, and a negative score ranks below one that is
/// not.
pub proof fn law_scores_rank_by_value(a: u32, b: u32)
    ensures
        a < b < 0x8000_0000 ==> score_rank(a) < score_rank(b),
        0x8000_0000 <= a < b ==> score_rank(b) < score_rank(a),
        a < 0x8000_0000 <= b ==> score_rank(b) < score_rank(a),
{
}

/// Of two images that were found, the one with the larger score stands first: the one with the
/// larger bits where neither score is negative, the one with the smaller bits where both are,
/// and the one that is not negative otherwise.
pub proof fn law_larger_scores_stand_first(
    items: Seq<SearchItem>,
    images: Seq<ScoredImage>,
    limit: usize,
    i: int,
    j: int,
)
    requires
        are_best(items, images, limit),
        0 <= i < items.len(),
        0 <= j < items.len(),
    ensures
        items[j].score < items[i].score < 0x8000_0000 ==> i < j,
        0x8000_0000 <= items[i].score < items[j].score ==> i < j,
        items[i].score < 0x8000_0000 <= items[j].score ==> i < j,
{
    if j < i {
        law_best_come_first(items, images, limit, j, i);
    }
}

/// An image with a larger score than one that was found is itself found.
pub proof fn law_larger_scores_are_found(
    items: Seq<SearchItem>,
    images: Seq<ScoredImage>,
    limit: usize,
    i: int,
    x: int,
)
    requires
        images.len() <= usize::MAX,
        are_best(items, images, limit),
        0 <= i < items.len(),
        0 <= x < images.len(),
        images[x].score is Ok,
        ({
            let low = items[i].score;
            let high = images[x].score->Ok_0;
            low < high < 0x8000_0000 || 0x8000_0000 <= high < low || high < 0x8000_0000 <= low
        }),
    ensures
        exists|k: int|
            0 <= k < i && (#[trigger] items[k]).id == images[x].image.id && items[k].score
                == images[x].score->Ok_0 && items[k].path@ == images[x].image.path@,
{
    if forall|k: int| 0 <= k < items.len() ==> !is_item_of(#[trigger] items[k], images[x]) {
        law_no_better_image_is_left_out(items, images, limit, i, x);
    }
    let k = choose|k: int| 0 <= k < items.len() && is_item_of(#[trigger] items[k], images[x]);
    law_larger_scores_stand_first(items, images, limit, k, i);
    assert(items[k].id == images[x].image.id);
}

/// As many images are found as there are, up to the limit, each at most once, with what the
/// index holds of them. Images with the same score keep their order.
pub proof fn law_found_are_of_the_index(
    items: Seq<SearchItem>,
    images: Seq<ScoredImage>,
    limit: usize,
) -> (places: Seq<int>)
    requires
        images.len() <= usize::MAX,
        are_best(items, images, limit),
    ensures
        images.len() <= limit ==> items.len() == images.len(),
        limit < images.len() ==> items.len() == limit,
        places.len() == items.len(),
        forall|k: int|
            0 <= k < items.len() ==> {
                let item = #[trigger] items[k];
                let x = images[places[k]];
                &&& 0 <= places[k] < images.len()
                &&& item.id == x.image.id
                &&& x.score == Ok::<u32, String>(item.score)
                &&& item.file_name@ == x.image.file_name@
                &&& item.path@ == x.image.path@
                &&& item.image_url@ == "/api/images/"@ + text::signed_decimal(x.image.id as int)
            },
        forall|i: int, j: int|
            0 <= i < j < items.len() ==> #[trigger] places[i] != #[trigger] places[j],
        forall|i: int, j: int|
            0 <= i < j < items.len() && (#[trigger] items[i]).score == (#[trigger] items[j]).score
                ==> places[i] < places[j],
{
    let keys = score_keys(images);
    let order = choose|order: Seq<usize>| #[trigger] is_ranking(items, images, limit, order);
    let places = Seq::new(items.len(), |k: int| order[k] as int);
    assert forall|k: int| 0 <= k < items.len() implies is_item_of(
        #[trigger] items[k],
        images[places[k]],
    ) && 0 <= places[k] < images.len() by {
        assert(order[k] < images.len());
    }
    assert forall|i: int, j: int| 0 <= i < j < items.len() implies (#[trigger] places[i]
        != #[trigger] places[j]) && (items[i].score == items[j].score ==> places[i]
        < places[j]) by {
        assert(order::before(keys, order[i] as int, order[j] as int));
        assert(is_item_of(items[i], images[places[i]]));
        assert(is_item_of(items[j], images[places[j]]));
    }
    places
}

/// An image is in order exactly if its vector has as many components as that of the query and it
/// has a score; the length is what is looked at first.
pub proof fn law_problems_of_images(dims: usize, x: ScoredImage)
    ensures
        image_problem(dims, x) is None <==> x.image.dims == dims && x.image.vector@.len() == dims
            && x.score is Ok,
        x.image.dims != dims || x.image.vector@.len() != dims ==> image_problem(dims, x) == Some(
            "索引向量与当前模型不匹配，请重新建立索引"@,
        ),
        x.image.dims == dims && x.image.vector@.len() == dims ==> (x.score matches Err(cause)
            ==> image_problem(dims, x) == Some(
            "failed to score image "@ + x.image.path@ + ": "@ + cause@,
        )),
{
}

/// Nothing can be searched without a model or without a directory of images.
pub proof fn law_ready_to_search(settings: AppSettings)
    ensures
        is_ready(settings) <==> settings.model_path@ != Seq::<char>::empty() && settings.asset_dir@
            != Seq::<char>::empty(),
{
    if settings.model_path@.len() == 0 {
        assert(settings.model_path@ =~= Seq::empty());
    }
    if settings.asset_dir@.len() == 0 {
        assert(settings.asset_dir@ =~= Seq::empty());
    }
}

} // verus!
