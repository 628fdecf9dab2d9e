//! The node type of a left-leaning red-black tree: colored nodes with
//! optional children, color manipulation helpers, and a left rotation.
//! Balancing logic on whole trees is not part of the exercise; the
//! contracts pin down exactly how each operation rearranges one node.

use vstd::prelude::*;

verus! {

/// The color of a node.
#[derive(Debug, Clone, Copy, PartialEq, Eq, Structural)]
pub enum Color {
    Red,
    Black,
}

/// The color a node turns into when its color is inverted.
pub open spec fn flipped(c: Color) -> Color {
    match c {
        Color::Red => Color::Black,
        Color::Black => Color::Red,
    }
}

/// A tree node: a value, a color, and optional children.
#[derive(Debug)]
pub struct Node {
    pub value: u32,
    pub color: Color,
    pub left: Option<Box<Node>>,
    pub right: Option<Box<Node>>,
}

impl Node {
    /// Creates a childless node; new nodes start out red.
    pub fn new(value: u32) -> (r: Self)
        ensures
            r.value == value,
            r.color == Color::Red,
            r.left is None,
            r.right is None,
    {
        Node { value, color: Color::Red, left: None, right: None }
    }

    /// Creates a red node with the given children.
    pub fn with_children(value: u32, left: Option<Box<Node>>, right: Option<Box<Node>>) -> (r:
        Self)
        ensures
            r.value == value,
            r.color == Color::Red,
            r.left == left,
            r.right == right,
    {
        Node { value, color: Color::Red, left, right }
    }

    /// The node's color.
    pub fn get_color(&self) -> (r: Color)
        ensures
            r == self.color,
    {
        self.color
    }

    /// Flips the node's color; nothing else changes.
    pub fn invert_color(&mut self)
        ensures
            final(self).color == flipped(old(self).color),
            final(self).value == old(self).value,
            final(self).left == old(self).left,
            final(self).right == old(self).right,
    {
        self.color = match self.color {
            Color::Red => Color::Black,
            Color::Black => Color::Red,
        };
    }

    /// Flips the color of each present child; the node itself and the
    /// children's subtrees are untouched.
    pub fn invert_children_colors(&mut self)
        ensures
            final(self).value == old(self).value,
            final(self).color == old(self).color,
            final(self).left is Some <==> old(self).left is Some,
            final(self).right is Some <==> old(self).right is Some,
            old(self).left matches Some(l) ==> final(self).left matches Some(l2) && l2.value
                == l.value && l2.color == flipped(l.color) && l2.left == l.left && l2.right
                == l.right,
            old(self).right matches Some(r0) ==> final(self).right matches Some(r2) && r2.value
                == r0.value && r2.color == flipped(r0.color) && r2.left == r0.left && r2.right
                == r0.right,
    {
        match &mut self.left {
            Some(left) => {
                left.invert_color();
            },
            None => {},
        }
        match &mut self.right {
            Some(right) => {
                right.invert_color();
            },
            None => {},
        }
    }

    /// Sets the node's color; nothing else changes.
    pub fn set_color(&mut self, color: Color)
        ensures
            final(self).color == color,
            final(self).value == old(self).value,
            final(self).left == old(self).left,
            final(self).right == old(self).right,
    {
        self.color = color;
    }

    /// Replaces the left child; nothing else changes.
    pub fn set_left(&mut self, left: Option<Box<Node>>)
        ensures
            final(self).left == left,
            final(self).value == old(self).value,
            final(self).color == old(self).color,
            final(self).right == old(self).right,
    {
        self.left = left;
    }

    /// Replaces the right child; nothing else changes.
    pub fn set_right(&mut self, right: Option<Box<Node>>)
        ensures
            final(self).right == right,
            final(self).value == old(self).value,
            final(self).color == old(self).color,
            final(self).left == old(self).left,
    {
        self.right = right;
    }

    /// The left child.
    pub fn get_left(&self) -> (r: &Option<Box<Node>>)
        ensures
            r == self.left,
    {
        &self.left
    }

    /// The right child.
    pub fn get_right(&self) -> (r: &Option<Box<Node>>)
        ensures
            r == self.right,
    {
        &self.right
    }

    /// The stored value.
    pub fn get_value(&self) -> (r: u32)
        ensures
            r == self.value,
    {
        self.value
    }

    /// Whether the node is red.
    pub fn is_red(&self) -> (r: bool)
        ensures
            r == (self.color == Color::Red),
    {
        self.color == Color::Red
    }

    /// Whether the node is black.
    pub fn is_black(&self) -> (r: bool)
        ensures
            r == (self.color == Color::Black),
    {
        self.color == Color::Black
    }

    /// Whether the node has no children.
    pub fn is_leaf(&self) -> (r: bool)
        ensures
            r == (self.left is None && self.right is None),
    {
        self.left.is_none() && self.right.is_none()
    }

    /// Rotates the node's right child up. With no right child, nothing
    /// changes and no node is returned. Otherwise the right child is
    /// returned as the new subtree root, red, keeping its own right
    /// subtree; its left child becomes a red node carrying this node's
    /// value, this node's old left subtree, and the right child's old left
    /// subtree. The node itself is left as a fresh red leaf with its value.
    pub fn rotate_left(&mut self) -> (r: Option<Box<Node>>)
        ensures
            old(self).right is None ==> r is None && *final(self) == *old(self),
            old(self).right matches Some(root0) ==> r matches Some(root) && root.value
                == root0.value && root.color == Color::Red && root.right == root0.right
                && (root.left matches Some(l) && l.value == old(self).value && l.color
                == Color::Red && l.left == old(self).left && l.right == root0.left)
                && *final(self) == (Node {
                value: old(self).value,
                color: Color::Red,
                left: None,
                right: None,
            }),
    {
        if self.right.is_none() {
            return None;
        }
        let mut new_root = self.right.take().unwrap();
        let mid = new_root.left.take();
        let old_left = self.left.take();
        let moved = Node { value: self.value, color: Color::Red, left: old_left, right: mid };
        new_root.left = Some(Box::new(moved));
        new_root.color = Color::Red;
        self.color = Color::Red;
        Some(new_root)
    }
}

} // verus!
