use text_tool::models::{
    all_node_titles, collect_nodes_linking_object, count_progress, foreshadow_markdown,
    move_node_up, node_at, node_at_mut, remove_node_at, Chapter, ChapterTag, Character,
    Foreshadow, LinkTarget, ObjectKind, ObjectLink, Panel, RelationKind, Relationship, StructKind,
    StructNode, WorldObject,
};

#[test]
fn test_character_new() {
    let ch = Character::new("张三");
    assert_eq!(ch.name, "张三");
    assert!(ch.traits.is_empty());
    assert!(ch.background.is_empty());
    assert!(ch.relationships.is_empty());
}

#[test]
fn test_character_relationship() {
    let mut ch = Character::new("张三");
    ch.relationships.push(Relationship {
        target: "李四".to_owned(),
        kind: RelationKind::Friend,
    });
    assert_eq!(ch.relationships.len(), 1);
    assert_eq!(ch.relationships[0].target, "李四");
    assert_eq!(ch.relationships[0].kind, RelationKind::Friend);
}

#[test]
fn test_chapter_new() {
    let chap = Chapter::new("第一章");
    assert_eq!(chap.title, "第一章");
    assert_eq!(chap.tag, ChapterTag::Normal);
    assert!(!chap.done);
}

#[test]
fn app_test_chapter_tag_labels() {
    assert_eq!(ChapterTag::Climax.label(), "高潮");
    assert_eq!(ChapterTag::Foreshadow.label(), "伏笔");
    assert_eq!(ChapterTag::Transition.label(), "过渡");
    assert_eq!(ChapterTag::Normal.label(), "普通");
}

#[test]
fn app_test_foreshadow_new() {
    let fs = Foreshadow::new("神秘礼物");
    assert_eq!(fs.name, "神秘礼物");
    assert!(!fs.resolved);
    assert!(fs.related_chapters.is_empty());
}

#[test]
fn app_test_relation_kind_labels() {
    assert_eq!(RelationKind::Friend.label(), "友好");
    assert_eq!(RelationKind::Enemy.label(), "敌对");
    assert_eq!(RelationKind::Family.label(), "亲属");
    assert_eq!(RelationKind::Other.label(), "其他");
}

#[test]
fn test_object_kind_labels() {
    assert_eq!(ObjectKind::Character.label(), "人物");
    assert_eq!(ObjectKind::Scene.label(), "场景");
    assert_eq!(ObjectKind::Location.label(), "地点");
    assert_eq!(ObjectKind::Item.label(), "道具");
    assert_eq!(ObjectKind::Faction.label(), "势力");
    assert_eq!(ObjectKind::Other.label(), "其他");
}

#[test]
fn test_world_object_new() {
    let obj = WorldObject::new("张三", ObjectKind::Character);
    assert_eq!(obj.name, "张三");
    assert_eq!(obj.kind, ObjectKind::Character);
    assert!(obj.description.is_empty());
    assert!(obj.links.is_empty());
}

#[test]
fn test_world_object_link() {
    let mut obj = WorldObject::new("张三", ObjectKind::Character);
    obj.links.push(ObjectLink {
        target: LinkTarget::Object("李四".to_owned()),
        kind: RelationKind::Friend,
        note: String::new(),
    });
    assert_eq!(obj.links.len(), 1);
    assert_eq!(obj.links[0].target.display_name(), "李四");
    assert_eq!(obj.links[0].target.type_label(), "对象");
}

#[test]
fn test_world_object_link_to_node() {
    let mut obj = WorldObject::new("古剑", ObjectKind::Item);
    obj.links.push(ObjectLink {
        target: LinkTarget::Node("第一章".to_owned()),
        kind: RelationKind::AppearsIn,
        note: "在山洞中被发现".to_owned(),
    });
    assert_eq!(obj.links[0].target.type_label(), "章节");
    assert_eq!(obj.links[0].note, "在山洞中被发现");
}

#[test]
fn test_struct_kind_labels() {
    assert_eq!(StructKind::Outline.label(), "总纲");
    assert_eq!(StructKind::Volume.label(), "卷");
    assert_eq!(StructKind::Chapter.label(), "章");
    assert_eq!(StructKind::Section.label(), "节");
}

#[test]
fn test_struct_kind_default_child() {
    assert_eq!(StructKind::Outline.default_child_kind(), StructKind::Volume);
    assert_eq!(StructKind::Volume.default_child_kind(), StructKind::Chapter);
    assert_eq!(StructKind::Chapter.default_child_kind(), StructKind::Section);
}

#[test]
fn test_struct_node_new() {
    let n = StructNode::new("第一章", StructKind::Chapter);
    assert_eq!(n.title, "第一章");
    assert_eq!(n.kind, StructKind::Chapter);
    assert!(n.children.is_empty());
    assert!(n.linked_objects.is_empty());
    assert!(!n.done);
}

#[test]
fn test_struct_node_leaf_count() {
    let mut vol = StructNode::new("第一卷", StructKind::Volume);
    vol.children.push(StructNode::new("第一章", StructKind::Chapter));
    vol.children.push(StructNode::new("第二章", StructKind::Chapter));
    assert_eq!(vol.leaf_count(), 2);
}

#[test]
fn test_struct_node_done_count() {
    let mut vol = StructNode::new("第一卷", StructKind::Volume);
    let mut ch1 = StructNode::new("第一章", StructKind::Chapter);
    ch1.done = true;
    vol.children.push(ch1);
    vol.children.push(StructNode::new("第二章", StructKind::Chapter));
    assert_eq!(vol.done_count(), 1);
    assert_eq!(vol.leaf_count(), 2);
}

#[test]
fn test_node_at() {
    let mut roots = vec![StructNode::new("第一卷", StructKind::Volume)];
    roots[0].children.push(StructNode::new("第一章", StructKind::Chapter));
    assert_eq!(node_at(&roots, &[0]).unwrap().title, "第一卷");
    assert_eq!(node_at(&roots, &[0, 0]).unwrap().title, "第一章");
    assert!(node_at(&roots, &[1]).is_none());
}

#[test]
fn test_node_at_mut() {
    let mut roots = vec![StructNode::new("第一卷", StructKind::Volume)];
    roots[0].children.push(StructNode::new("第一章", StructKind::Chapter));
    node_at_mut(&mut roots, &[0, 0]).unwrap().done = true;
    assert!(roots[0].children[0].done);
}

#[test]
fn test_all_node_titles() {
    let mut roots = vec![StructNode::new("第一卷", StructKind::Volume)];
    roots[0].children.push(StructNode::new("第一章", StructKind::Chapter));
    roots[0].children.push(StructNode::new("第二章", StructKind::Chapter));
    let titles = all_node_titles(&roots);
    assert_eq!(titles, vec!["第一卷", "第一章", "第二章"]);
}

#[test]
fn mod_test_relation_kind_labels() {
    assert_eq!(RelationKind::Friend.label(), "友好");
    assert_eq!(RelationKind::Enemy.label(), "敌对");
    assert_eq!(RelationKind::Family.label(), "亲属");
    assert_eq!(RelationKind::AppearsIn.label(), "出场");
    assert_eq!(RelationKind::Foreshadows.label(), "铺垫");
    assert_eq!(RelationKind::Resolves.label(), "回收");
}

#[test]
fn mod_test_chapter_tag_labels() {
    assert_eq!(ChapterTag::Climax.label(), "高潮");
    assert_eq!(ChapterTag::Foreshadow.label(), "伏笔");
    assert_eq!(ChapterTag::Transition.label(), "过渡");
    assert_eq!(ChapterTag::Normal.label(), "普通");
}

#[test]
fn mod_test_foreshadow_new() {
    let fs = Foreshadow::new("神秘礼物");
    assert_eq!(fs.name, "神秘礼物");
    assert!(!fs.resolved);
    assert!(fs.related_chapters.is_empty());
}

#[test]
fn test_remove_node_at() {
    let mut roots = vec![StructNode::new("第一卷", StructKind::Volume)];
    roots[0].children.push(StructNode::new("第一章", StructKind::Chapter));
    roots[0].children.push(StructNode::new("第二章", StructKind::Chapter));
    remove_node_at(&mut roots, &[0, 0]);
    assert_eq!(roots[0].children.len(), 1);
    assert_eq!(roots[0].children[0].title, "第二章");
    // an out-of-range path leaves the tree alone
    remove_node_at(&mut roots, &[5]);
    assert_eq!(roots.len(), 1);
}

#[test]
fn test_move_node_up() {
    let mut roots = vec![StructNode::new("第一卷", StructKind::Volume)];
    roots[0].children.push(StructNode::new("第一章", StructKind::Chapter));
    roots[0].children.push(StructNode::new("第二章", StructKind::Chapter));
    move_node_up(&mut roots, &[0, 1]);
    assert_eq!(roots[0].children[0].title, "第二章");
    assert_eq!(roots[0].children[1].title, "第一章");
    // the first child cannot move further up
    move_node_up(&mut roots, &[0, 0]);
    assert_eq!(roots[0].children[0].title, "第二章");
}

#[test]
fn test_count_progress() {
    let mut vol = StructNode::new("第一卷", StructKind::Volume);
    let mut ch1 = StructNode::new("第一章", StructKind::Chapter);
    ch1.done = true;
    vol.children.push(ch1);
    vol.children.push(StructNode::new("第二章", StructKind::Chapter));
    let roots = vec![vol, StructNode::new("尾声", StructKind::Chapter)];
    let (total, done) = count_progress(&roots);
    assert_eq!(total, 3);
    assert_eq!(done, 1);
}

#[test]
fn test_collect_nodes_linking_object() {
    let mut vol = StructNode::new("第一卷", StructKind::Volume);
    let mut ch1 = StructNode::new("第一章", StructKind::Chapter);
    ch1.linked_objects.push("主角".to_owned());
    let mut ch2 = StructNode::new("第二章", StructKind::Chapter);
    ch2.linked_objects.push("反派".to_owned());
    vol.children.push(ch1);
    vol.children.push(ch2);
    vol.linked_objects.push("主角".to_owned());
    let roots = vec![vol];
    let hits = collect_nodes_linking_object(&roots, "主角");
    assert_eq!(hits, vec!["第一卷", "第一章"]);
}

#[test]
fn test_panel_labels_and_icons() {
    assert_eq!(Panel::Novel.label(), "小说编辑");
    assert_eq!(Panel::Objects.label(), "世界对象");
    assert_eq!(Panel::Structure.label(), "章节结构");
    assert_eq!(Panel::LLM.label(), "LLM辅助");
    assert_eq!(Panel::Novel.icon(), "📝");
}

#[test]
fn test_object_and_struct_kind_icons_all() {
    assert_eq!(ObjectKind::Character.icon(), "👤");
    assert_eq!(StructKind::Volume.icon(), "📚");
    assert_eq!(ObjectKind::all().len(), 6);
    assert_eq!(RelationKind::all().len(), 12);
    assert_eq!(ChapterTag::all().len(), 4);
    assert_eq!(StructKind::all().len(), 4);
    let obj = WorldObject::new("古剑", ObjectKind::Item);
    assert_eq!(obj.icon(), "🗡");
}

#[test]
fn test_foreshadow_markdown_document() {
    let mut a = Foreshadow::new("神秘礼物");
    a.description = "一份来历不明的礼物".to_owned();
    a.related_chapters.push("第一章".to_owned());
    a.related_chapters.push("第三章".to_owned());
    a.resolved = true;
    let b = Foreshadow::new("旧信件");
    let md = foreshadow_markdown(&vec![a, b]);
    assert_eq!(
        md,
        "# 伏笔列表\n\n## 神秘礼物 ✅ 已解决\n\n一份来历不明的礼物\n\n**关联章节**: 第一章、第三章\n\n## 旧信件 ⏳ 未解决\n\n"
    );
}
