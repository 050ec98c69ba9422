use hardwave::marketplace::{
    register_review, Catalog, CreatorRevenue, PluginFormat, PresetInstrument, Purchase, Review,
    StoreItem, StoreItemKind, StoreSection, UserAccount,
};

fn sample_pack(id: &str, title: &str, price: u32) -> StoreItem {
    StoreItem {
        id: id.into(),
        title: title.into(),
        creator_id: "creator-1".into(),
        price_cents: price,
        preview_url: Some("https://example/preview.mp3".into()),
        install_path: format!("~/Library/Hardwave/{}", id),
        rating_count: 0,
        rating_sum: 0,
        kind: StoreItemKind::SamplePack { sample_count: 100, style_tags: vec!["trap".into()] },
    }
}

fn preset_pack(id: &str, instrument: PresetInstrument) -> StoreItem {
    StoreItem {
        id: id.into(),
        title: format!("{} {:?} Pack", id, instrument),
        creator_id: "creator-2".into(),
        price_cents: 1_999,
        preview_url: None,
        install_path: format!("~/Library/Hardwave/{}", id),
        rating_count: 0,
        rating_sum: 0,
        kind: StoreItemKind::Preset { instrument, preset_count: 32 },
    }
}

fn plugin(id: &str, fmt: PluginFormat) -> StoreItem {
    StoreItem {
        id: id.into(),
        title: format!("Plugin {}", id),
        creator_id: "creator-3".into(),
        price_cents: 9_999,
        preview_url: None,
        install_path: format!("~/VST/{}", id),
        rating_count: 0,
        rating_sum: 0,
        kind: StoreItemKind::Plugin {
            vendor: "Hardwave Labs".into(),
            format: fmt,
            version: "1.0.0".into(),
        },
    }
}

/// The store shows the mean of the rating counters; the library keeps
/// the counters and leaves the division to the display side.
fn average_rating(item: &StoreItem) -> Option<f32> {
    if item.rating_count == 0 {
        None
    } else {
        Some(item.rating_sum as f32 / item.rating_count as f32)
    }
}

#[test]
fn by_section_filters_correctly() {
    let mut cat = Catalog::new();
    cat.items.push(sample_pack("sp1", "Trap Kit", 999));
    cat.items.push(preset_pack("ps1", PresetInstrument::Fm));
    cat.items.push(plugin("pg1", PluginFormat::Vst3));
    assert_eq!(cat.by_section(StoreSection::SamplePacks).len(), 1);
    assert_eq!(cat.by_section(StoreSection::Presets).len(), 1);
    assert_eq!(cat.by_section(StoreSection::Plugins).len(), 1);
}

#[test]
fn presets_by_instrument_filters() {
    let mut cat = Catalog::new();
    cat.items.push(preset_pack("fm1", PresetInstrument::Fm));
    cat.items.push(preset_pack("ws1", PresetInstrument::Wavetable));
    assert_eq!(cat.presets_by_instrument(PresetInstrument::Fm).len(), 1);
    assert_eq!(cat.presets_by_instrument(PresetInstrument::Wavetable).len(), 1);
    assert_eq!(cat.presets_by_instrument(PresetInstrument::Sampler).len(), 0);
}

#[test]
fn search_matches_case_insensitive() {
    let mut cat = Catalog::new();
    cat.items.push(sample_pack("sp1", "Trap Sounds 2026", 999));
    cat.items.push(sample_pack("sp2", "House Essentials", 999));
    assert_eq!(cat.search("trap").len(), 1);
    assert_eq!(cat.search("TRAP").len(), 1);
    assert_eq!(cat.search("dubstep").len(), 0);
}

#[test]
fn user_account_tracks_purchase_history_and_idempotency() {
    let mut user = UserAccount {
        user_id: "u1".into(),
        display_name: "Dex".into(),
        email: "d@x.com".into(),
        purchases: Vec::new(),
    };
    user.add_purchase(Purchase { item_id: "sp1".into(), price_cents_paid: 999, purchase_timestamp_unix: 1 });
    user.add_purchase(Purchase { item_id: "sp1".into(), price_cents_paid: 999, purchase_timestamp_unix: 2 });
    assert_eq!(user.purchases.len(), 1);
    assert!(user.owns("sp1"));
    assert_eq!(user.total_spent_cents(), 999);
}

#[test]
fn creator_revenue_splits_platform_and_creator() {
    let mut rev = CreatorRevenue {
        creator_id: "c1".into(),
        platform_fee_bps: 3_000,
        total_sales_cents: 0,
        platform_cut_cents: 0,
        creator_cents: 0,
    };
    rev.record_sale(1_000);
    assert_eq!(rev.total_sales_cents, 1_000);
    assert_eq!(rev.platform_cut_cents, 300);
    assert_eq!(rev.creator_cents, 700);
}

#[test]
fn review_registration_updates_average_rating() {
    let mut cat = Catalog::new();
    cat.items.push(sample_pack("sp1", "Pack", 999));
    let mut reviews = Vec::new();
    let ok = register_review(&mut cat, &mut reviews, Review::new("u1", "sp1", 5));
    assert!(ok);
    assert_eq!(cat.find("sp1").unwrap().rating_count, 1);
    assert_eq!(average_rating(cat.find("sp1").unwrap()), Some(5.0));
    register_review(&mut cat, &mut reviews, Review::new("u2", "sp1", 3));
    assert_eq!(cat.find("sp1").unwrap().rating_count, 2);
    assert!((average_rating(cat.find("sp1").unwrap()).unwrap() - 4.0).abs() < 1e-3);
}

#[test]
fn re_reviewing_replaces_prior_entry() {
    let mut cat = Catalog::new();
    cat.items.push(sample_pack("sp1", "Pack", 999));
    let mut reviews = Vec::new();
    register_review(&mut cat, &mut reviews, Review::new("u1", "sp1", 5));
    register_review(&mut cat, &mut reviews, Review::new("u1", "sp1", 2));
    assert_eq!(cat.find("sp1").unwrap().rating_count, 1);
    assert_eq!(average_rating(cat.find("sp1").unwrap()), Some(2.0));
    assert_eq!(reviews.len(), 1);
}

#[test]
fn top_rated_returns_sorted_limited_list() {
    let mut cat = Catalog::new();
    let mut a = sample_pack("a", "A", 0);
    a.rating_count = 1;
    a.rating_sum = 3;
    let mut b = sample_pack("b", "B", 0);
    b.rating_count = 1;
    b.rating_sum = 5;
    cat.items.push(a);
    cat.items.push(b);
    let top = cat.top_rated(StoreSection::SamplePacks, 1);
    assert_eq!(top.len(), 1);
    assert_eq!(top[0].id, "b");
}

#[test]
fn a_review_of_an_unknown_item_changes_nothing() {
    let mut cat = Catalog::new();
    cat.items.push(sample_pack("sp1", "Pack", 999));
    let mut reviews = Vec::new();
    assert!(!register_review(&mut cat, &mut reviews, Review::new("u1", "nope", 4)));
    assert!(reviews.is_empty());
    assert_eq!(cat.items[0].rating_count, 0);
}

#[test]
fn review_stars_are_clamped_into_one_to_five() {
    assert_eq!(Review::new("u", "i", 0).stars, 1);
    assert_eq!(Review::new("u", "i", 9).stars, 5);
    assert_eq!(Review::new("u", "i", 3).stars, 3);
}

#[test]
fn top_rated_keeps_catalogue_order_on_ties_and_counts_unrated_as_zero() {
    let mut cat = Catalog::new();
    let mut a = sample_pack("a", "A", 0);
    a.rating_count = 2;
    a.rating_sum = 8;
    let b = sample_pack("b", "B", 0);
    let mut c = sample_pack("c", "C", 0);
    c.rating_count = 1;
    c.rating_sum = 4;
    cat.items.push(a);
    cat.items.push(b);
    cat.items.push(c);
    cat.items.push(plugin("p", PluginFormat::Clap));
    let top = cat.top_rated(StoreSection::SamplePacks, 10);
    let ids: Vec<&str> = top.iter().map(|i| i.id.as_str()).collect();
    assert_eq!(ids, vec!["a", "c", "b"]);
}

#[test]
fn search_looks_at_titles_only() {
    let mut cat = Catalog::new();
    cat.items.push(sample_pack("sp1", "Kit", 0));
    assert_eq!(cat.search("creator-1").len(), 0);
    assert_eq!(cat.search("").len(), 1);
}

#[test]
fn a_split_rounds_the_platform_share_down() {
    let mut rev = CreatorRevenue {
        creator_id: "c".into(),
        platform_fee_bps: 3_333,
        total_sales_cents: 0,
        platform_cut_cents: 0,
        creator_cents: 0,
    };
    rev.record_sale(999);
    assert_eq!(rev.platform_cut_cents, 332);
    assert_eq!(rev.creator_cents, 667);
}
